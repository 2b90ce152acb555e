use mavlink::common::{
    MavCmd, MavFrame, MavMessage, MavMissionResult, COMMAND_ACK_DATA, COMMAND_INT_DATA,
    MISSION_ACK_DATA, MISSION_REQUEST_DATA, MISSION_REQUEST_INT_DATA,
};
use mavlink_extras::dialect::Reply;
use mavlink_extras::exchange::ConnError;
use mavlink_extras::message::Message;
use mavlink_extras::mission::{
    clear_request, cleared, conclude, finish, judge_clear, judge_upload, Answer, MissionUpload,
    UploadStep, Uploaded,
};

fn ack(mavtype: MavMissionResult) -> MavMessage {
    MavMessage::MISSION_ACK(MISSION_ACK_DATA { target_system: 255, target_component: 9, mavtype })
}

fn request(seq: u16) -> MavMessage {
    MavMessage::MISSION_REQUEST(MISSION_REQUEST_DATA { seq, target_system: 3, target_component: 4 })
}

fn request_int(seq: u16) -> MavMessage {
    MavMessage::MISSION_REQUEST_INT(MISSION_REQUEST_INT_DATA {
        seq,
        target_system: 3,
        target_component: 4,
    })
}

fn waypoint(x: i32) -> COMMAND_INT_DATA {
    COMMAND_INT_DATA {
        param1: 1.0,
        param2: 2.0,
        param3: 3.0,
        param4: 4.0,
        x,
        y: 0x0102_0304,
        z: 5.0,
        command: MavCmd::MAV_CMD_NAV_WAYPOINT,
        target_system: 77,
        target_component: 78,
        frame: MavFrame::MAV_FRAME_GLOBAL_RELATIVE_ALT,
        current: 79,
        autocontinue: 80,
    }
}

fn goes_on(uploaded: Option<Uploaded>) -> bool {
    matches!(uploaded, Some(Uploaded::GoOn))
}

fn next(upload: MissionUpload<'_>) -> MissionUpload<'_> {
    match upload.exchanged::<u8>(Ok(Uploaded::GoOn)) {
        UploadStep::Request(upload) => upload,
        UploadStep::Finished(_) => panic!("there are items left"),
    }
}

fn end(uploaded: Option<Uploaded>) -> Result<(), String> {
    match uploaded {
        Some(Uploaded::Ended(end)) => end,
        _ => panic!("the upload has ended"),
    }
}

#[test]
fn mission_is_cleared() {
    let request = clear_request();
    assert_eq!(request.message.message_id(), 45);
    assert_eq!(request.message.ser(), vec![1, 1]);
    assert_eq!(request.timeout_ms, 500);
    assert_eq!(request.only_id, None);
    assert_eq!(cleared(&ack(MavMissionResult::MAV_MISSION_ACCEPTED)), Some(Ok(())));
    assert_eq!(
        cleared(&ack(MavMissionResult::MAV_MISSION_DENIED)),
        Some(Err("failed to clear mission, with reasult MAV_MISSION_DENIED".to_string()))
    );
    assert_eq!(cleared(&request_int(0)), None);
}

#[test]
fn items_are_uploaded_in_order() {
    let commands = [waypoint(0x0A0B_0C0D), waypoint(7)];
    let upload = MissionUpload::new(&commands);

    let due = upload.request();
    assert_eq!(due.message.message_id(), 44);
    assert_eq!(due.message.ser(), vec![2, 0, 1, 1]);
    assert_eq!(due.timeout_ms, 1000);
    assert_eq!(due.only_id, None);
    assert!(upload.answered(&ack(MavMissionResult::MAV_MISSION_ACCEPTED)).is_none());
    assert!(upload.answered(&request(1)).is_none());
    assert!(upload.answered(&request_int(2)).is_none());
    assert!(goes_on(upload.answered(&request(0))));
    assert!(goes_on(upload.answered(&request_int(0))));

    let upload = next(upload);
    let due = upload.request();
    assert_eq!(due.message.message_id(), 73);
    assert_eq!(
        due.message.ser(),
        vec![
            0, 0, 0x80, 0x3F, 0, 0, 0, 0x40, 0, 0, 0x40, 0x40, 0, 0, 0x80, 0x40, 0x0D, 0x0C, 0x0B,
            0x0A, 4, 3, 2, 1, 0, 0, 0xA0, 0x40, 0, 0, 16, 0, 1, 1, 3, 1, 1,
        ]
    );
    assert_eq!(due.timeout_ms, 500);
    assert_eq!(due.only_id, None);
    assert!(upload.answered(&request(0)).is_none());
    assert!(goes_on(upload.answered(&request(1))));

    let upload = next(upload);
    let due = upload.request();
    assert_eq!(
        due.message.ser(),
        vec![
            0, 0, 0x80, 0x3F, 0, 0, 0, 0x40, 0, 0, 0x40, 0x40, 0, 0, 0x80, 0x40, 7, 0, 0, 0, 4, 3,
            2, 1, 0, 0, 0xA0, 0x40, 1, 0, 16, 0, 1, 1, 3, 0, 1,
        ]
    );
    assert_eq!(due.timeout_ms, 1000);
    assert_eq!(due.only_id, Some(47));
    assert!(upload.answered(&request(2)).is_none());
    assert_eq!(end(upload.answered(&ack(MavMissionResult::MAV_MISSION_ACCEPTED))), Ok(()));
    assert_eq!(
        end(upload.answered(&ack(MavMissionResult::MAV_MISSION_NO_SPACE))),
        Err("failed to clear mission, with reasult MAV_MISSION_NO_SPACE".to_string())
    );
}

#[test]
fn empty_mission_takes_any_result() {
    let upload = MissionUpload::new(&[]);
    let due = upload.request();
    assert_eq!(due.message.ser(), vec![0, 0, 1, 1]);
    assert_eq!(due.timeout_ms, 1000);
    assert_eq!(due.only_id, Some(47));
    assert!(upload.answered(&request(0)).is_none());
    assert_eq!(end(upload.answered(&ack(MavMissionResult::MAV_MISSION_ERROR))), Ok(()));
}

#[test]
fn replies_are_judged() {
    assert_eq!(judge_clear(Reply::MissionAck(3)), Answer::Ended(3));
    assert_eq!(judge_clear(Reply::MissionRequest(0)), Answer::NotYet);
    assert_eq!(judge_upload(0, 0, Reply::MissionAck(5)), Answer::Ended(0));
    assert_eq!(judge_upload(2, 2, Reply::MissionAck(5)), Answer::Ended(5));
    assert_eq!(judge_upload(2, 1, Reply::MissionAck(5)), Answer::NotYet);
    assert_eq!(judge_upload(2, 1, Reply::MissionRequest(1)), Answer::GoOn);
    assert_eq!(judge_upload(2, 1, Reply::MissionRequestInt(1)), Answer::GoOn);
    assert_eq!(judge_upload(2, 1, Reply::MissionRequestInt(0)), Answer::NotYet);
    assert_eq!(judge_upload(2, 2, Reply::MissionRequestInt(2)), Answer::NotYet);
    assert_eq!(judge_upload(2, 0, Reply::Other), Answer::NotYet);
    assert_eq!(judge_upload(2, 0, Reply::CommandAck { command: 0, result: 0 }), Answer::NotYet);
}

#[test]
fn long_mission_stalls() {
    assert_eq!(judge_upload(65536, 65535, Reply::MissionRequest(65535)), Answer::GoOn);
    assert_eq!(judge_upload(65536, 65536, Reply::MissionAck(0)), Answer::Ended(0));
    assert_eq!(judge_upload(65537, 65536, Reply::MissionRequest(0)), Answer::NotYet);
    assert_eq!(judge_upload(65537, 65536, Reply::MissionAck(0)), Answer::NotYet);
}

#[test]
fn result_is_named() {
    assert_eq!(conclude(0, "anything"), Ok(()));
    assert_eq!(
        conclude(2, "text"),
        Err("failed to clear mission, with reasult text".to_string())
    );
}

#[test]
fn other_messages_are_no_answers() {
    let other = MavMessage::COMMAND_ACK(COMMAND_ACK_DATA::default());
    assert_eq!(cleared(&other), None);
    assert!(MissionUpload::new(&[waypoint(1)]).answered(&other).is_none());
}

fn finished(exchanged: Result<Uploaded, ConnError<u8>>) -> Result<(), ConnError<u8>> {
    match MissionUpload::new(&[waypoint(1)]).exchanged(exchanged) {
        UploadStep::Finished(result) => result,
        UploadStep::Request(_) => panic!("nothing is left to be done"),
    }
}

#[test]
fn exchanges_end_an_upload() {
    assert!(matches!(finished(Ok(Uploaded::Ended(Ok(())))), Ok(())));
    match finished(Ok(Uploaded::Ended(Err("no".to_string())))) {
        Err(ConnError::Rejected(text)) => assert_eq!(text, "no"),
        _ => panic!("the vehicle has refused"),
    }
    assert!(matches!(finished(Err(ConnError::MaxRetries)), Err(ConnError::MaxRetries)));
    assert!(matches!(finished(Err(ConnError::Send(4))), Err(ConnError::Send(4))));
}

#[test]
fn exchange_ends_the_clearing() {
    assert!(matches!(finish::<u8>(Ok(Ok(()))), Ok(())));
    match finish::<u8>(Ok(Err("no".to_string()))) {
        Err(ConnError::Rejected(text)) => assert_eq!(text, "no"),
        _ => panic!("the vehicle has refused"),
    }
    let aborted = finish::<u8>(Err(ConnError::ConnectionAborted));
    assert!(matches!(aborted, Err(ConnError::ConnectionAborted)));
}
