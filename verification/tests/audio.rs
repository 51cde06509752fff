use bit::audio::{failure_reason, MicFailure, Recorder};

#[test]
fn samples_are_kept_while_recording() {
    let mut r: Recorder<f32> = Recorder::new();
    r.opened(48_000);
    r.capture(&vec![0.5]);
    r.start();
    r.capture(&vec![1.0, 2.0]);
    r.start();
    r.capture(&vec![3.0]);
    assert!(r.is_recording());
    assert_eq!(r.recent(2), vec![2.0, 3.0]);
    assert_eq!(r.recent(9), vec![1.0, 2.0, 3.0]);
    assert_eq!(r.stop(), Some((vec![1.0, 2.0, 3.0], 48_000)));
    r.capture(&vec![4.0]);
    assert_eq!(r.stop(), None);
    r.start();
    assert_eq!(r.stop(), Some((Vec::new(), 48_000)));
}

#[test]
fn a_new_recorder_waits() {
    let mut r: Recorder<u8> = Recorder::new();
    assert!(r.available() && !r.is_recording());
    assert_eq!((r.last_error(), r.sample_rate()), (None, 16_000));
    r.fail(&MicFailure::NoDevice);
    assert!(!r.available());
    assert_eq!(r.last_error(), Some("no microphone input device found".to_string()));
}

#[test]
fn microphone_failures_are_told() {
    let reason = |f: MicFailure| failure_reason(&f);
    assert_eq!(
        reason(MicFailure::NoConfig("e".to_string())),
        "microphone not available (e). If macOS never prompted, grant Bit Microphone permission \
         in System Settings → Privacy."
    );
    assert_eq!(
        reason(MicFailure::Format("U8".to_string())),
        "unsupported sample format: U8"
    );
    assert_eq!(
        reason(MicFailure::Open("e".to_string())),
        "couldn't open microphone (e). Grant Bit Microphone permission in System Settings → \
         Privacy if you haven't."
    );
    assert_eq!(
        reason(MicFailure::Start("e".to_string())),
        "couldn't start microphone (e)"
    );
}
