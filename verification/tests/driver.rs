use kinect_firmware_utils::driver::STATUS_PROBE_ADDRESS;
use kinect_firmware_utils::driver::STATUS_PROBE_SIZE;
use kinect_firmware_utils::protocol::confirm_receive;
use kinect_firmware_utils::protocol::confirm_send;
use kinect_firmware_utils::Error;
use kinect_firmware_utils::Exchange;
use kinect_firmware_utils::Response;
use kinect_firmware_utils::Upload;
use kinect_firmware_utils::UploadStep;

const SAMPLE_HEADER: [u8; 24] = *b"\x0d\xf0\x77\xca\x02\x00\x01\x00\x86\x01\x00\x00\x00\x00\x08\x00\x00\x04\x02\x00\x30\x00\x08\x00";

/// An image of 0x20400 bytes whose header declares base address 0x80000,
/// size 0x20400 and entry point 0x80030.
fn sample_image() -> Vec<u8> {
    let mut image = vec![0u8; 0x20_400];
    image[..24].copy_from_slice(&SAMPLE_HEADER);
    image
}

fn status_frame(tag: u32, result: u32) -> Vec<u8> {
    [0x0a6f_e000u32, tag, result]
        .iter()
        .flat_map(|w| w.to_le_bytes())
        .collect()
}

#[test]
fn upload_issues_probe_pages_and_execute_in_order() {
    let image = sample_image();
    let mut up = Upload::new(&image).unwrap();

    match up.step() {
        UploadStep::Perform(Exchange::StatusProbe { tag, address, size }) => {
            assert_eq!(tag, 1);
            assert_eq!(address, STATUS_PROBE_ADDRESS);
            assert_eq!(size, STATUS_PROBE_SIZE);
        }
        other => panic!("expected the status probe first, got {other:?}"),
    }
    up.record(Ok(()));

    for i in 0..9u32 {
        match up.step() {
            UploadStep::Perform(Exchange::PageWrite { tag, address, offset, len }) => {
                assert_eq!(tag, i + 2);
                assert_eq!(address, 0x80_000 + i * 0x4000);
                assert_eq!(offset, i as usize * 0x4000);
                assert_eq!(len, if i == 8 { 0x400 } else { 0x4000 });
                assert!(offset + len <= image.len());
            }
            other => panic!("expected page write {i}, got {other:?}"),
        }
        up.record(Ok(()));
    }

    match up.step() {
        UploadStep::Perform(Exchange::Execute { tag, address }) => {
            assert_eq!(tag, 11);
            assert_eq!(address, 0x80_030);
        }
        other => panic!("expected the execute exchange, got {other:?}"),
    }
    up.record(Ok(()));

    assert_eq!(up.step(), UploadStep::Done);
}

#[test]
fn upload_tags_increase_by_one() {
    let image = sample_image();
    let mut up = Upload::new(&image).unwrap();
    let mut expected_tag = 1u32;
    loop {
        match up.step() {
            UploadStep::Perform(exchange) => {
                let tag = match exchange {
                    Exchange::StatusProbe { tag, .. } => tag,
                    Exchange::PageWrite { tag, .. } => tag,
                    Exchange::Execute { tag, .. } => tag,
                };
                assert_eq!(tag, expected_tag);
                expected_tag += 1;
                up.record(Ok(()));
            }
            UploadStep::Done => break,
            UploadStep::Aborted(e) => panic!("unexpected abort: {e:?}"),
        }
    }
    assert_eq!(expected_tag, 12);
}

#[test]
fn upload_aborts_on_rejected_page_before_execute() {
    let image = sample_image();
    let mut up = Upload::new(&image).unwrap();

    assert!(matches!(up.step(), UploadStep::Perform(Exchange::StatusProbe { .. })));
    up.record(Ok(()));

    assert!(matches!(
        up.step(),
        UploadStep::Perform(Exchange::PageWrite { tag: 2, .. })
    ));
    up.record(Ok(()));

    assert!(matches!(
        up.step(),
        UploadStep::Perform(Exchange::PageWrite { tag: 3, .. })
    ));
    up.record(Err(Error::DeviceRejected));

    // The upload is aborted for good: no further exchange, in particular
    // no execute, is ever offered.
    assert_eq!(up.step(), UploadStep::Aborted(Error::DeviceRejected));
    assert_eq!(up.step(), UploadStep::Aborted(Error::DeviceRejected));
}

#[test]
fn upload_aborts_on_transport_failure() {
    let image = sample_image();
    let mut up = Upload::new(&image).unwrap();
    assert!(matches!(up.step(), UploadStep::Perform(Exchange::StatusProbe { .. })));
    up.record(Err(Error::Transport));
    assert_eq!(up.step(), UploadStep::Aborted(Error::Transport));
}

#[test]
fn upload_rejects_image_with_wrong_magic() {
    let mut image = sample_image();
    image[0] = 0;
    assert!(matches!(Upload::new(&image), Err(Error::InvalidImage)));
}

#[test]
fn upload_rejects_size_mismatch() {
    let image = &sample_image()[..0x20_000];
    assert!(matches!(Upload::new(image), Err(Error::InvalidImage)));

    let mut padded = sample_image();
    padded.push(0);
    assert!(matches!(Upload::new(&padded), Err(Error::InvalidImage)));
}

#[test]
fn upload_of_minimal_image_has_one_page() {
    // A 24-byte image: the header alone, declaring size 24.
    let mut image = SAMPLE_HEADER.to_vec();
    image[16] = 24;
    image[17] = 0;
    image[18] = 0;
    image[19] = 0;
    let mut up = Upload::new(&image).unwrap();
    assert!(matches!(up.step(), UploadStep::Perform(Exchange::StatusProbe { .. })));
    up.record(Ok(()));
    match up.step() {
        UploadStep::Perform(Exchange::PageWrite { tag, address, offset, len }) => {
            assert_eq!(tag, 2);
            assert_eq!(address, 0x80_000);
            assert_eq!(offset, 0);
            assert_eq!(len, 24);
        }
        other => panic!("expected one page write, got {other:?}"),
    }
    up.record(Ok(()));
    assert!(matches!(up.step(), UploadStep::Perform(Exchange::Execute { tag: 3, .. })));
    up.record(Ok(()));
    assert_eq!(up.step(), UploadStep::Done);
}

#[test]
fn confirm_send_checks_tag_and_result() {
    assert_eq!(confirm_send(&status_frame(5, 0), 5), Ok(()));
    assert_eq!(
        confirm_send(&status_frame(6, 0), 5),
        Err(Error::TagMismatch { expected: 5, actual: 6 })
    );
    assert_eq!(confirm_send(&status_frame(5, 1), 5), Err(Error::DeviceRejected));
    assert_eq!(confirm_send(&[0u8; 12], 5), Err(Error::MalformedFrame));
}

#[test]
fn confirm_receive_checks_payload_length_first() {
    let payload = Response::from_bytes(&[0u8; 0x60]);
    assert_eq!(confirm_receive(&payload, &status_frame(1, 0), 1, 0x60), Ok(()));
    assert_eq!(
        confirm_receive(&payload, &status_frame(1, 0), 1, 0x40),
        Err(Error::PayloadSizeMismatch { expected: 0x40, actual: 0x60 })
    );
    // A payload of the wrong size is reported before a tag mismatch.
    assert_eq!(
        confirm_receive(&payload, &status_frame(2, 0), 1, 0x40),
        Err(Error::PayloadSizeMismatch { expected: 0x40, actual: 0x60 })
    );
    assert_eq!(
        confirm_receive(&payload, &status_frame(2, 0), 1, 0x60),
        Err(Error::TagMismatch { expected: 1, actual: 2 })
    );
    assert_eq!(
        confirm_receive(&payload, &status_frame(1, 7), 1, 0x60),
        Err(Error::DeviceRejected)
    );
    assert_eq!(
        confirm_receive(&payload, &status_frame(1, 0)[..8], 1, 0x60),
        Err(Error::MalformedFrame)
    );
}
