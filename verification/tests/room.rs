use chat_room::message::Message;
use chat_room::message::MessageKind;
use chat_room::participant::LocalParticipant;
use chat_room::participant::Participant;
use chat_room::room::Room;

fn text(payload: u64) -> Message {
    Message { kind: MessageKind::Text, payload }
}

#[test]
fn new_room_is_empty_and_keeps_its_name() {
    let room: Room<LocalParticipant> = Room::new("lobby".to_string());
    assert_eq!(room.get_name(), "lobby");
    assert_eq!(room.all_student_ids(), Vec::<u64>::new());
    assert!(room.member_at(0).is_none());
}

#[test]
fn lobby_broadcast_reaches_members_in_order_then_leaver_is_skipped() {
    let mut room: Room<LocalParticipant> = Room::new("lobby".to_string());
    room.join(LocalParticipant::new(1, 1));
    room.join(LocalParticipant::new(2, 2));

    let m = text(100);
    room.broadcast(&m);

    let a = room.member_at(0).unwrap();
    assert_eq!(a.student_id(), 1);
    assert_eq!(a.received().len(), 1);
    assert_eq!(a.received()[0], m);
    let b = room.member_at(1).unwrap();
    assert_eq!(b.student_id(), 2);
    assert_eq!(b.received().len(), 1);
    assert_eq!(b.received()[0], m);

    room.leave(&LocalParticipant::new(1, 1));
    assert_eq!(room.all_student_ids(), vec![2]);

    let m2 = text(101);
    room.broadcast(&m2);
    let b = room.member_at(0).unwrap();
    assert_eq!(b.student_id(), 2);
    assert_eq!(b.received().len(), 2);
    assert_eq!(b.received()[1], m2);
}

#[test]
fn broadcast_delivers_exactly_once_per_member() {
    let mut room: Room<LocalParticipant> = Room::new("class".to_string());
    for h in 1..=4u64 {
        room.join(LocalParticipant::new(h, h * 10));
    }
    let m = text(7);
    room.broadcast(&m);
    for i in 0..4 {
        let p = room.member_at(i).unwrap();
        assert_eq!(p.received().len(), 1);
        assert_eq!(p.received()[0], m);
    }
    assert!(room.member_at(4).is_none());
}

#[test]
fn send_to_a_non_member_delivers_nothing() {
    let mut room: Room<LocalParticipant> = Room::new("r".to_string());
    room.join(LocalParticipant::new(1, 5));
    room.join(LocalParticipant::new(2, 6));

    // Same identity as a member, but a different reference: not a member.
    let outsider = LocalParticipant::new(9, 5);
    room.send(&text(1), &outsider);

    assert_eq!(room.member_at(0).unwrap().received().len(), 0);
    assert_eq!(room.member_at(1).unwrap().received().len(), 0);
}

#[test]
fn send_delivers_exactly_once_to_the_named_reference() {
    let mut room: Room<LocalParticipant> = Room::new("r".to_string());
    // Three distinct references all wrapping the same identity.
    room.join(LocalParticipant::new(1, 5));
    room.join(LocalParticipant::new(2, 5));
    room.join(LocalParticipant::new(3, 5));

    let m = text(42);
    room.send(&m, &LocalParticipant::new(2, 5));

    assert_eq!(room.member_at(0).unwrap().received().len(), 0);
    assert_eq!(room.member_at(1).unwrap().received().len(), 1);
    assert_eq!(room.member_at(1).unwrap().received()[0], m);
    assert_eq!(room.member_at(2).unwrap().received().len(), 0);
}

#[test]
fn join_then_immediate_leave_leaves_no_residue() {
    let mut room: Room<LocalParticipant> = Room::new("r".to_string());
    room.join(LocalParticipant::new(1, 10));
    room.join(LocalParticipant::new(2, 20));
    let before = room.all_student_ids();

    room.join(LocalParticipant::new(3, 30));
    room.leave(&LocalParticipant::new(3, 30));

    assert_eq!(room.all_student_ids(), before);
}

#[test]
fn leave_removes_every_entry_of_the_reference() {
    let mut room: Room<LocalParticipant> = Room::new("r".to_string());
    // The same reference joined twice produces two entries ...
    room.join(LocalParticipant::new(1, 10));
    room.join(LocalParticipant::new(1, 10));
    room.join(LocalParticipant::new(2, 20));
    assert_eq!(room.all_student_ids(), vec![10, 10, 20]);

    // ... and one leave removes them both.
    room.leave(&LocalParticipant::new(1, 10));
    assert_eq!(room.all_student_ids(), vec![20]);
}

#[test]
fn leave_of_an_absent_reference_is_a_no_op() {
    let mut room: Room<LocalParticipant> = Room::new("r".to_string());
    room.join(LocalParticipant::new(1, 10));
    room.leave(&LocalParticipant::new(7, 10));
    assert_eq!(room.all_student_ids(), vec![10]);
}

#[test]
fn membership_ids_follow_the_join_leave_history() {
    let mut room: Room<LocalParticipant> = Room::new("r".to_string());
    room.join(LocalParticipant::new(1, 10));
    room.join(LocalParticipant::new(2, 20));
    room.join(LocalParticipant::new(3, 30));
    room.leave(&LocalParticipant::new(2, 20));
    room.join(LocalParticipant::new(4, 40));
    room.leave(&LocalParticipant::new(9, 90));
    assert_eq!(room.all_student_ids(), vec![10, 30, 40]);
}

#[test]
fn a_run_of_joins_loses_none() {
    let mut room: Room<LocalParticipant> = Room::new("r".to_string());
    let k = 16u64;
    for h in 0..k {
        room.join(LocalParticipant::new(h, 1000 + h));
    }
    let ids = room.all_student_ids();
    assert_eq!(ids.len(), k as usize);
    for h in 0..k {
        assert_eq!(ids[h as usize], 1000 + h);
    }
}

#[test]
fn every_message_kind_is_carried_unchanged() {
    let kinds = vec![
        MessageKind::Text,
        MessageKind::Image,
        MessageKind::Gif,
        MessageKind::Video,
        MessageKind::Emoji,
    ];
    let mut room: Room<LocalParticipant> = Room::new("r".to_string());
    room.join(LocalParticipant::new(1, 1));
    for (i, kind) in kinds.iter().enumerate() {
        room.broadcast(&Message { kind: *kind, payload: i as u64 });
    }
    let p = room.member_at(0).unwrap();
    assert_eq!(p.received().len(), kinds.len());
    for (i, kind) in kinds.iter().enumerate() {
        assert_eq!(p.received()[i].kind, *kind);
        assert_eq!(p.received()[i].payload, i as u64);
    }
}

#[test]
fn local_participant_reports_its_identity() {
    let p = LocalParticipant::new(3, 77);
    assert_eq!(p.student_id(), 77);
    assert!(p.same_ref(&LocalParticipant::new(3, 12)));
    assert!(!p.same_ref(&LocalParticipant::new(4, 77)));
    assert_eq!(p.received().len(), 0);
}
