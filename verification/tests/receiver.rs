use sdr_bullet::command::{
    capture_path, parse_command, scan_frequencies, whole_transfers, Command,
};
use sdr_bullet::demod::Mode;
use sdr_bullet::device::{classify_failure, is_rtl2832u, Found};
use sdr_bullet::r82xx::{GainMode, R82xx};
use sdr_bullet::receiver::{band_label, bring_up, gain_mode, supported_gains, OpenError};
use sdr_bullet::regs::GAIN_VALUES;
use sdr_bullet::replay::{Answer, Transcript};
use sdr_bullet::rtl2832::{Rtl2832, R828D_I2C_ADDR};
use sdr_bullet::stage::{
    channel_capacity, decodes_data, shown_program_id, ChannelPlan, ChannelStatus, DemodMode, Route,
};
use sdr_bullet::text::decimal;
use sdr_bullet::transport::{MockTransport, Recorded, Transport, TransportError};
use sdr_bullet::wav::{header, interleave};

fn mock() -> Rtl2832<MockTransport> {
    let mut rtl = Rtl2832::new(MockTransport::new());
    rtl.set_verify_demod_writes(false);
    rtl
}

#[test]
fn a_receiver_comes_up_when_its_tuner_answers() {
    for (v4, xtal) in [(true, 28_800_000), (false, 16_000_000)] {
        let mut rtl = mock();
        rtl.transport_mut().push_response(vec![0x69]);
        let tuner: R82xx<MockTransport> = bring_up(&mut rtl, v4).unwrap();
        assert_eq!(tuner.xtal(), xtal);
        assert_eq!(tuner.band(), None);
        assert_eq!(tuner.tuned_frequency(), 0);
        assert_eq!(tuner.shadow(0x05), 0x83);
    }
}

#[test]
fn bringing_up_stops_where_it_fails() {
    let mut rtl = mock();
    assert!(matches!(bring_up(&mut rtl, true), Err(OpenError::NoTuner)));

    let mut rtl = mock();
    rtl.transport_mut().push_response(vec![0x69]);
    bring_up(&mut rtl, true).unwrap();
    let all = rtl.into_transport().log.len();
    let mut stages = Vec::new();
    for n in 0..all {
        let mut rtl = mock();
        rtl.transport_mut().push_response(vec![0x69]);
        rtl.transport_mut().fail_after = Some(n);
        let stage = match bring_up(&mut rtl, true) {
            Err(OpenError::Baseband(TransportError::Disconnected)) => 0,
            Err(OpenError::Probe(TransportError::Disconnected)) => 1,
            Err(OpenError::Tuner(TransportError::Disconnected)) => 2,
            Err(OpenError::DataPath(TransportError::Disconnected)) => 3,
            _ => unreachable!(),
        };
        assert_eq!(rtl.into_transport().log.len(), n);
        stages.push(stage);
    }
    let counts: Vec<usize> = (0..4).map(|s| stages.iter().filter(|x| **x == s).count()).collect();
    assert_eq!(counts, vec![44, 3, 6, 6]);
    stages.windows(2).for_each(|w| assert!(w[0] <= w[1]));
}

#[test]
fn a_failed_probe_still_closes_the_repeater() {
    let mut rtl = Rtl2832::new(Transcript::new(vec![
        Answer::Sent,
        Answer::Failed(TransportError::Stalled),
        Answer::Sent,
    ]));
    rtl.set_verify_demod_writes(false);
    assert_eq!(rtl.probe_tuner(R828D_I2C_ADDR), Err(TransportError::Stalled));
    let transcript = rtl.into_transport();
    assert_eq!((transcript.used, transcript.wanted), (3, None));
}

/// Runs a call against a transport one transfer at a time.
fn in_steps<A>(
    device: &mut MockTransport,
    call: impl Fn(&mut Rtl2832<Transcript>) -> Result<A, TransportError>,
) -> Result<A, TransportError> {
    let mut answers: Vec<Answer> = Vec::new();
    loop {
        let mut rtl = Rtl2832::new(Transcript::new(answers.clone()));
        let outcome = call(&mut rtl);
        let answer = match rtl.into_transport().wanted {
            None => return outcome,
            Some(Recorded::Out { value, index, data }) => {
                let request = sdr_bullet::transport::ControlRequest::write(value, index);
                match device.control_out(request, &data) {
                    Ok(()) => Answer::Sent,
                    Err(e) => Answer::Failed(e),
                }
            }
            Some(Recorded::In { value, index, len }) => {
                let request = sdr_bullet::transport::ControlRequest::read(value, index);
                let mut buf = vec![0u8; len];
                match device.control_in(request, &mut buf) {
                    Ok(n) => Answer::Received(buf[..n].to_vec()),
                    Err(e) => Answer::Failed(e),
                }
            }
            Some(Recorded::Bulk { len }) => {
                let mut buf = vec![0u8; len];
                match device.bulk_in(&mut buf) {
                    Ok(n) => Answer::Received(buf[..n].to_vec()),
                    Err(e) => Answer::Failed(e),
                }
            }
        };
        answers.push(answer);
    }
}

#[test]
fn a_call_made_in_steps_sends_what_it_sends_at_once() {
    let mut stepped = MockTransport::new();
    in_steps(&mut stepped, |rtl| rtl.init_baseband()).unwrap();
    let mut at_once = Rtl2832::new(MockTransport::new());
    at_once.init_baseband().unwrap();
    assert_eq!(stepped.log, at_once.into_transport().log);

    let mut tuner = MockTransport::new();
    tuner.push_response(vec![0]);
    tuner.push_response(vec![0x69]);
    assert_eq!(in_steps(&mut tuner, |rtl| rtl.probe_tuner(R828D_I2C_ADDR)), Ok(true));

    let mut broken = MockTransport::new();
    broken.fail_after = Some(3);
    let outcome = in_steps(&mut broken, |rtl| rtl.init_baseband());
    assert_eq!(outcome, Err(TransportError::Disconnected));

    let mut stream = MockTransport::new();
    let outcome = in_steps(&mut stream, |rtl| {
        let mut buf = [0u8; 6];
        let n = rtl.read_samples(&mut buf)?;
        Ok((n, buf))
    });
    assert_eq!(outcome, Ok((6, [0x7F; 6])));
}

#[test]
fn failures_read_as_they_are_meant() {
    assert_eq!(TransportError::Disconnected.message(), "device disconnected");
    assert_eq!(TransportError::Stalled.message(), "endpoint stalled");
    assert_eq!(TransportError::Io("late".to_string()).message(), "transport error: late");
    assert_eq!(
        classify_failure("control read", "The device was disconnected."),
        TransportError::Disconnected
    );
    assert_eq!(
        classify_failure("control read", "No device selected"),
        TransportError::Disconnected
    );
    assert_eq!(classify_failure("control write", "a stall"), TransportError::Stalled);
    assert_eq!(
        classify_failure("sample read", "timed out"),
        TransportError::Io("sample read: timed out".to_string())
    );
}

#[test]
fn errors_of_the_driver_say_what_was_asked() {
    let mut rtl = mock();
    for (rate, name) in [(1_000, "TooLow"), (500_000, "UnsupportedGap"), (4_000_000, "TooHigh")] {
        assert_eq!(
            rtl.set_sample_rate(rate),
            Err(TransportError::Io(format!("unsupported sample rate: {name}")))
        );
    }
    let mut tuner: R82xx<MockTransport> = R82xx::new_v4();
    assert_eq!(
        tuner.set_frequency(&mut rtl, 2_500_000_000),
        Err(TransportError::Io("cannot tune to 2503570000 Hz: OutOfRange".to_string()))
    );
    let mut legacy: R82xx<MockTransport> = R82xx::new_legacy_r828d();
    assert!(legacy.set_frequency(&mut rtl, 100_000_000).is_ok());
    assert_eq!(legacy.tuned_frequency(), 100_000_000);
    assert_eq!(decimal(0), "0");
    assert_eq!(decimal(1_203_400), "1203400");
}

#[test]
fn the_shadow_follows_what_was_sent() {
    let mut rtl = mock();
    let mut tuner: R82xx<MockTransport> = R82xx::new_v4();
    tuner.set_frequency(&mut rtl, 7_100_000).unwrap();
    tuner.set_gain(&mut rtl, GainMode::Manual(200)).unwrap();
    let mut shadow: Vec<u8> = sdr_bullet::r82xx::INIT_REGS.to_vec();
    for (value, index, data) in rtl.into_transport().writes() {
        if (value, index) == (0x74, 0x610) {
            shadow[data[0] as usize - 5] = data[1];
        }
    }
    for reg in 0x05..=0x1F {
        assert_eq!(tuner.shadow(reg), shadow[reg as usize - 5], "register {reg:#x}");
    }
}

#[test]
fn demodulator_reads_and_trims_go_where_they_should() {
    let mut rtl = mock();
    rtl.transport_mut().push_response(vec![0x5A]);
    assert_eq!(rtl.demod_read(1, 0x01), Ok(0x5A));
    rtl.transport_mut().push_response(vec![0x12, 0x34]);
    assert_eq!(rtl.read_reg(sdr_bullet::regs::Block::Sys, 0x3000, 2), Ok(0x1234));
    assert_eq!(rtl.read_reg(sdr_bullet::regs::Block::Sys, 0x3000, 0), Ok(0));
    rtl.transport_mut().clear();
    rtl.set_frequency_correction(-60).unwrap();
    rtl.set_agc(true).unwrap();
    rtl.set_agc(false).unwrap();
    assert_eq!(rtl.xtal(), 28_800_000);
    let t = rtl.into_transport();
    assert!(t.wrote(0x3E20, 0x11, &[0x03]));
    assert!(t.wrote(0x3F20, 0x11, &[0xEE]));
    assert!(t.wrote(0x1920, 0x10, &[0x25]));
    assert!(t.wrote(0x1920, 0x10, &[0x05]));
}

#[test]
fn controls_mean_what_they_show() {
    assert_eq!(gain_mode(-1), GainMode::Automatic);
    assert_eq!(gain_mode(300), GainMode::Manual(297));
    assert_eq!(supported_gains(), GAIN_VALUES.to_vec());
    assert_eq!(band_label(7_000_000), "HF");
    assert_eq!(band_label(100_000_000), "VHF");
    assert_eq!(band_label(433_000_000), "UHF");
}

#[test]
fn a_v4_is_known_by_both_strings() {
    let found = |manufacturer: Option<&str>, product: Option<&str>| Found {
        manufacturer: manufacturer.map(str::to_string),
        product: product.map(str::to_string),
        serial: None,
        bus: 1,
        address: 2,
    };
    assert!(found(Some("RTLSDRBlog"), Some("Blog V4")).is_v4());
    assert!(!found(Some("RTLSDRBlog"), Some("Blog V3")).is_v4());
    assert!(!found(Some("Realtek"), Some("Blog V4")).is_v4());
    assert!(!found(None, Some("Blog V4")).is_v4());
    assert!(!found(Some("RTLSDRBlog"), None).is_v4());
    assert!(is_rtl2832u(0x0BDA, 0x2838));
    assert!(!is_rtl2832u(0x0BDA, 0x2832));
}

#[test]
fn channels_are_planned_by_mode() {
    let wide = ChannelPlan::new(DemodMode::Wfm.into());
    assert_eq!((wide.route, wide.target_rate, wide.deviation), (Route::Multiplex, 240_000, 75_000));
    let voice = ChannelPlan::new(Mode::Nfm);
    assert_eq!(
        (voice.route, voice.target_rate, voice.deviation),
        (Route::Discriminator, 48_000, 5_000)
    );
    assert_eq!(ChannelPlan::new(Mode::Am).route, Route::Envelope);
    assert_eq!(ChannelPlan::new(Mode::from(DemodMode::Cw)).bandwidth, 500);
    assert_eq!(channel_capacity(65_536, 10), 6_555);

    let mut status = ChannelStatus::new();
    status.block(Route::Multiplex, false, true, 480);
    assert_eq!((status.stereo, status.squelch_open, status.frames), (true, false, 480));
    status.empty_block();
    assert_eq!((status.stereo, status.squelch_open, status.frames), (true, false, 0));
    status.block(Route::Envelope, false, true, 48);
    assert_eq!((status.stereo, status.squelch_open, status.frames), (false, true, 48));
    status.block(Route::Discriminator, false, true, 48);
    assert_eq!((status.stereo, status.squelch_open), (false, false));
    assert_eq!(shown_program_id(Some(0xC201)), 0xC201);
    assert_eq!(shown_program_id(None), 0);
}

#[test]
fn command_lines_are_understood() {
    let line = |words: &[&str]| {
        let args: Vec<String> = words.iter().map(|w| w.to_string()).collect();
        parse_command(&args)
    };
    assert_eq!(line(&[]), Ok(Command::Info));
    assert_eq!(line(&["probe"]), Ok(Command::Info));
    assert_eq!(line(&["probe", "debug"]), Ok(Command::Debug));
    assert_eq!(line(&["probe", "scan"]), Ok(Command::Scan));
    assert_eq!(line(&["probe", "fm", "98.5M"]), Ok(Command::Fm(98_500_000)));
    assert_eq!(line(&["probe", "spectrum", "7100k", "x"]), Ok(Command::Spectrum(7_100_000)));
    assert_eq!(line(&["probe", "capture", "1.2G"]), Ok(Command::Capture(1_200_000_000)));
    assert_eq!(line(&["probe", "fm"]),
        Err("usage: probe fm <frequency, e.g. 98.5M> [seconds]".to_string()));
    assert_eq!(line(&["probe", "spectrum", "loud"]),
        Err("usage: probe spectrum <frequency>".to_string()));
    assert_eq!(line(&["probe", "capture"]),
        Err("usage: probe capture <frequency> [seconds]".to_string()));
    assert_eq!(line(&["probe", "sing"]),
        Err("unknown command 'sing'. Try info, scan, fm or capture.".to_string()));
    assert_eq!(whole_transfers(0), 0);
    assert_eq!(whole_transfers(1), 262_144);
    assert_eq!(whole_transfers(262_145), 524_288);
    assert_eq!(scan_frequencies().last(), Some(&107_900_000));
    assert_eq!(capture_path(98_500_000, 2_400_000), "captures/98500000Hz-2400000sps.cs8");
}

#[test]
fn sound_files_are_laid_out_as_pcm() {
    let bytes = header(2, 48_000);
    assert_eq!(&bytes[..4], b"RIFF");
    assert_eq!(u32::from_le_bytes([bytes[4], bytes[5], bytes[6], bytes[7]]), 44);
    assert_eq!(&bytes[8..16], b"WAVEfmt ");
    assert_eq!(&bytes[16..24], &[16, 0, 0, 0, 1, 0, 2, 0]);
    assert_eq!(u32::from_le_bytes([bytes[24], bytes[25], bytes[26], bytes[27]]), 48_000);
    assert_eq!(u32::from_le_bytes([bytes[28], bytes[29], bytes[30], bytes[31]]), 192_000);
    assert_eq!(&bytes[32..40], b"\x04\x00\x10\x00data");
    assert_eq!(u32::from_le_bytes([bytes[40], bytes[41], bytes[42], bytes[43]]), 8);
    assert_eq!(interleave(&[1, -2], &[0x1234, -32_768, 5]), vec![1, 0, 0x34, 0x12, 254, 255, 0, 128]);
}

#[test]
fn data_is_decoded_only_behind_a_locked_pilot() {
    for route in [Route::Multiplex, Route::Discriminator, Route::Envelope, Route::Product] {
        assert!(!decodes_data(route, false));
        assert_eq!(decodes_data(route, true), route == Route::Multiplex);
    }
}
