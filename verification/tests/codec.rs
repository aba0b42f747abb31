use kinect_firmware_utils::protocol::internal::decode_command;
use kinect_firmware_utils::protocol::internal::decode_status;
use kinect_firmware_utils::protocol::internal::Command;
use kinect_firmware_utils::protocol::encode_command;
use kinect_firmware_utils::Command as Operation;
use kinect_firmware_utils::Error;
use kinect_firmware_utils::Response;
use kinect_firmware_utils::Status;

fn le_bytes(cmd: &[u32; 6]) -> Vec<u8> {
    let cmd_buffer = cmd
        .iter()
        .map(|arg| arg.to_le_bytes())
        .collect::<Vec<[u8; 4]>>()
        .concat();
    cmd_buffer
}

#[test]
fn generate_status_command() {
    let seq = 1;
    let status_cmd = [
        0x06022009u32, // magic
        seq,           // tag
        0x00000060u32, // payload size
        0x00000000u32, // command = version
        0x00000015u32, // address
        0x00000000u32, // unk
    ];
    let status = Command {
        tag: seq,
        command: 0,
        address: 0x15,
        size: 0x60,
        unk: 0,
    };

    assert_eq!(le_bytes(&status_cmd), status.bytes());
}

#[test]
fn generate_page_command() {
    let seq = 7;
    let page_len: usize = 0x10_000;
    let address = 0x80_000;
    let page_cmd = [
        0x06022009u32,     // magic
        seq,               // tag
        (page_len as u32), // payload size
        0x00000003u32,     // command = write page
        address,           // address
        0x00000000u32,     // unk
    ];
    let page = Command {
        tag: seq,
        command: 3,
        address,
        size: page_len as u32,
        unk: 0,
    };

    assert_eq!(le_bytes(&page_cmd), page.bytes());
}

#[test]
fn generate_finished_command() {
    let seq = 11;
    let entry_point = 0x80_030;
    let finished_cmd = [
        0x0602_2009u32, // magic
        seq,            // tag
        0x0000_0000u32, // payload size
        0x0000_0004u32, // command = finish upload
        entry_point,    // address
        0x0000_0000u32, // unk
    ];
    let finished = Command {
        tag: seq,
        command: 0x04,
        address: entry_point,
        size: 0,
        unk: 0,
    };

    assert_eq!(le_bytes(&finished_cmd), finished.bytes());
}

#[test]
fn parse_status() {
    let buffer = [0x0a6f_e000, 0x0000_0001, 0x0000_0000u32]
        .iter()
        .map(|arg| arg.to_le_bytes())
        .collect::<Vec<[u8; 4]>>()
        .concat();

    let response = Response::from_bytes(&buffer);

    let status: Status = decode_status(response.get()).unwrap();
    assert_eq!(status.tag, 1);
    assert!(status.success);
}

#[test]
fn command_round_trips_through_decoder() {
    let frame = Command {
        tag: 0xdead_beef,
        size: 0x1234_5678,
        command: 4,
        address: 0x8000_0030,
        unk: 0,
    };
    let decoded = decode_command(&frame.bytes()).unwrap();
    assert_eq!(decoded, frame);
}

#[test]
fn encode_command_lays_out_operation_codes() {
    let frame = encode_command(5, 0x4000, Operation::Page, 0x84000);
    let words = [0x06022009u32, 5, 0x4000, 3, 0x84000, 0];
    assert_eq!(frame, le_bytes(&words));

    let frame = encode_command(1, 0x60, Operation::Status, 0x15);
    let words = [0x06022009u32, 1, 0x60, 0, 0x15, 0];
    assert_eq!(frame, le_bytes(&words));

    let frame = encode_command(11, 0, Operation::Execute, 0x80030);
    let words = [0x06022009u32, 11, 0, 4, 0x80030, 0];
    assert_eq!(frame, le_bytes(&words));
}

#[test]
fn decode_status_rejects_wrong_length() {
    let short = [0x0a6f_e000u32, 1].iter().flat_map(|w| w.to_le_bytes()).collect::<Vec<u8>>();
    assert_eq!(decode_status(&short), Err(Error::MalformedFrame));

    let long = [0x0a6f_e000u32, 1, 0, 0].iter().flat_map(|w| w.to_le_bytes()).collect::<Vec<u8>>();
    assert_eq!(decode_status(&long), Err(Error::MalformedFrame));

    assert_eq!(decode_status(&[]), Err(Error::MalformedFrame));
}

#[test]
fn decode_status_rejects_wrong_magic() {
    let frame = [0x0602_2009u32, 1, 0].iter().flat_map(|w| w.to_le_bytes()).collect::<Vec<u8>>();
    assert_eq!(decode_status(&frame), Err(Error::MalformedFrame));
}

#[test]
fn decode_status_reads_failure_result() {
    let frame = [0x0a6f_e000u32, 9, 0x17].iter().flat_map(|w| w.to_le_bytes()).collect::<Vec<u8>>();
    let status = decode_status(&frame).unwrap();
    assert_eq!(status.tag, 9);
    assert!(!status.success);
}
