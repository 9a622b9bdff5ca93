use sdr_bullet::r82xx::{GainMode, R82xx, FIRST_REG, INIT_REGS, VCO_POWER_REF};
use sdr_bullet::regs::{self, Band};
use sdr_bullet::rtl2832::{Rtl2832, DEFAULT_IF_HZ, R828D_I2C_ADDR};
use sdr_bullet::replay::{Answer, Transcript};
use sdr_bullet::transport::{MockTransport, Recorded, TransportError};

fn rig() -> (Rtl2832<MockTransport>, R82xx<MockTransport>) {
    let mut rtl = Rtl2832::new(MockTransport::new());
    rtl.set_verify_demod_writes(false);
    (rtl, R82xx::new_v4())
}

/// Every tuner write recorded, as `(register, value)`.
fn tuner_writes(log: &MockTransport) -> Vec<(u8, u8)> {
    let (v, i) = regs::i2c_write(R828D_I2C_ADDR);
    log.writes()
        .into_iter()
        .filter(|(wv, wi, data)| *wv == v && *wi == i && data.len() == 2)
        .map(|(_, _, data)| (data[0], data[1]))
        .collect()
}

#[test]
fn the_v4_clocks_its_tuner_from_the_shared_reference() {
    // This is the whole difference between a V4 and a conventional R828D board, and
    // getting it wrong scales every synthesiser calculation by 1.8.
    assert_eq!(R82xx::<MockTransport>::new_v4().xtal(), 28_800_000);
    assert_eq!(
        R82xx::<MockTransport>::new_legacy_r828d().xtal(),
        16_000_000
    );
}

#[test]
fn init_writes_every_register_in_the_set() {
    let (mut rtl, mut tuner) = rig();
    tuner.init(&mut rtl).unwrap();
    let log = rtl.into_transport();

    // The run is split across several messages by the bus limit, so reassemble it
    // rather than looking for one transfer.
    let (v, i) = regs::i2c_write(R828D_I2C_ADDR);
    let mut rebuilt = Vec::new();
    for (wv, wi, data) in log.writes() {
        if wv == v && wi == i && data[0] == FIRST_REG + rebuilt.len() as u8 {
            rebuilt.extend_from_slice(&data[1..]);
        }
    }
    assert_eq!(rebuilt, INIT_REGS.to_vec(), "init register set incomplete");
}

#[test]
fn masked_writes_preserve_neighbouring_bits() {
    let (mut rtl, mut tuner) = rig();
    // Register 0x05 starts at 0x83. Setting only the low nibble must leave 0x80 alone.
    tuner.write_mask(&mut rtl, 0x05, 0x0A, 0x0F).unwrap();
    assert_eq!(tuner.shadow(0x05), 0x8A);

    // And touching the automatic-gain bit must not disturb the index just written.
    tuner.write_mask(&mut rtl, 0x05, 0x10, 0x10).unwrap();
    assert_eq!(tuner.shadow(0x05), 0x9A);
}

#[test]
fn hf_selects_the_second_cable_input() {
    let (mut rtl, mut tuner) = rig();
    tuner.set_frequency(&mut rtl, 7_100_000).unwrap();

    assert_eq!(tuner.band(), Some(Band::Hf));
    // Cable 2 on, cable 1 off, antenna input deselected.
    assert_eq!(tuner.shadow(0x06) & 0x08, 0x08, "HF port not selected");
    assert_eq!(tuner.shadow(0x05) & 0x40, 0x00, "VHF port still selected");
    assert_eq!(
        tuner.shadow(0x05) & 0x20,
        0x20,
        "antenna input still selected"
    );
}

#[test]
fn vhf_and_uhf_select_their_own_inputs() {
    let (mut rtl, mut tuner) = rig();
    tuner.set_frequency(&mut rtl, 100_000_000).unwrap();
    assert_eq!(tuner.band(), Some(Band::Vhf));
    assert_eq!(tuner.shadow(0x05) & 0x40, 0x40, "VHF port not selected");
    assert_eq!(tuner.shadow(0x06) & 0x08, 0x00, "HF port still selected");

    tuner.set_frequency(&mut rtl, 433_000_000).unwrap();
    assert_eq!(tuner.band(), Some(Band::Uhf));
    // Inverted sense: cleared means selected.
    assert_eq!(
        tuner.shadow(0x05) & 0x20,
        0x00,
        "antenna input not selected"
    );
    assert_eq!(tuner.shadow(0x05) & 0x40, 0x00, "VHF port still selected");
}

#[test]
fn hf_bypasses_the_tracking_filter_on_every_tune() {
    // Selecting the mux reasserts the tracking filter, so a bypass applied only on a
    // band change is silently undone by the next tune within HF.
    let (mut rtl, mut tuner) = rig();
    tuner.set_frequency(&mut rtl, 7_100_000).unwrap();
    let first = rtl.transport_mut().log.len();
    rtl.transport_mut().clear();

    tuner.set_frequency(&mut rtl, 14_200_000).unwrap();
    let log = rtl.into_transport();
    let writes = tuner_writes(&log);

    assert!(first > 0);
    assert!(
        writes.iter().any(|(reg, _)| *reg == 0x1B),
        "tracking filter bypass not reapplied on a second HF tune"
    );
}

#[test]
fn band_switching_is_skipped_when_the_band_is_unchanged() {
    let (mut rtl, mut tuner) = rig();
    tuner.set_frequency(&mut rtl, 100_000_000).unwrap();
    rtl.transport_mut().clear();

    // A second VHF frequency should not rewrite the mux.
    tuner.set_frequency(&mut rtl, 105_000_000).unwrap();
    let log = rtl.into_transport();
    let writes = tuner_writes(&log);
    assert!(
        !writes.iter().any(|(reg, _)| *reg == 0x06),
        "rewrote the mux without changing band"
    );
}

#[test]
fn notch_state_follows_the_frequency_not_the_band() {
    let (mut rtl, mut tuner) = rig();

    // Inside broadcast FM the notch is bypassed.
    tuner.set_frequency(&mut rtl, 98_000_000).unwrap();
    assert_eq!(
        tuner.shadow(0x17) & 0x08,
        0x00,
        "notch engaged inside FM broadcast"
    );

    // Still VHF, but outside the broadcast band, so it engages.
    tuner.set_frequency(&mut rtl, 145_000_000).unwrap();
    assert_eq!(
        tuner.shadow(0x17) & 0x08,
        0x08,
        "notch not engaged outside FM broadcast"
    );
}

#[test]
fn hf_tuning_targets_the_upconverted_frequency() {
    let (mut rtl, mut tuner) = rig();
    tuner.set_frequency(&mut rtl, 7_100_000).unwrap();
    let log = rtl.into_transport();
    let writes = tuner_writes(&log);

    // Recover the divider settings and check they describe the upconverted frequency
    // plus the intermediate frequency, not the requested one.
    let reg_14 = writes
        .iter()
        .rev()
        .find(|(r, _)| *r == 0x14)
        .expect("no divider write")
        .1;
    let reg_16 = writes
        .iter()
        .rev()
        .find(|(r, _)| *r == 0x16)
        .expect("no fraction high")
        .1;
    let reg_15 = writes
        .iter()
        .rev()
        .find(|(r, _)| *r == 0x15)
        .expect("no fraction low")
        .1;

    let expected_lo = regs::tuner_frequency(7_100_000) + DEFAULT_IF_HZ;
    let expected = regs::compute_pll(expected_lo, regs::RTL_XTAL, 0, VCO_POWER_REF).unwrap();
    assert_eq!(reg_14, expected.reg_14);
    assert_eq!(reg_16, expected.reg_16);
    assert_eq!(reg_15, expected.reg_15);
}

#[test]
fn manual_gain_disables_both_automatic_loops_first() {
    let (mut rtl, mut tuner) = rig();
    tuner.set_gain(&mut rtl, GainMode::Manual(300)).unwrap();

    // Automatic low-noise-amplifier control off, automatic mixer control off.
    assert_eq!(tuner.shadow(0x05) & 0x10, 0x10, "LNA loop still running");
    assert_eq!(tuner.shadow(0x07) & 0x10, 0x00, "mixer loop still running");

    let expected = regs::distribute_gain(300);
    assert_eq!(tuner.shadow(0x05) & 0x0F, expected.lna_index);
    assert_eq!(tuner.shadow(0x07) & 0x0F, expected.mixer_index);
}

#[test]
fn automatic_gain_hands_control_back_to_the_tuner() {
    let (mut rtl, mut tuner) = rig();
    tuner.set_gain(&mut rtl, GainMode::Manual(300)).unwrap();
    tuner.set_gain(&mut rtl, GainMode::Automatic).unwrap();

    assert_eq!(tuner.shadow(0x05) & 0x10, 0x00, "LNA loop not re-enabled");
    assert_eq!(tuner.shadow(0x07) & 0x10, 0x10, "mixer loop not re-enabled");
}

#[test]
fn tuning_is_bracketed_by_the_i2c_repeater() {
    let (mut rtl, mut tuner) = rig();
    tuner.set_frequency(&mut rtl, 100_000_000).unwrap();
    let log = rtl.into_transport();

    let (v, i) = regs::demod_write(1, 0x01);
    let toggles: Vec<u8> = log
        .writes()
        .into_iter()
        .filter(|(wv, wi, _)| *wv == v && *wi == i)
        .map(|(_, _, data)| data[0])
        .collect();

    assert_eq!(toggles.first(), Some(&0x18), "repeater not opened first");
    assert_eq!(toggles.last(), Some(&0x10), "repeater left open");
}

#[test]
fn lock_status_is_read_from_the_third_register() {
    let (mut rtl, mut tuner) = rig();
    // Bit 6 of register 2 is the lock indicator.
    rtl.transport_mut().push_response(vec![0u8, 0, 0x40, 0, 0]);
    assert!(tuner.is_locked(&mut rtl).unwrap());

    let (mut rtl2, mut tuner2) = rig();
    rtl2.transport_mut().push_response(vec![0u8; 5]);
    assert!(!tuner2.is_locked(&mut rtl2).unwrap());
}

#[test]
fn an_unreachable_frequency_is_reported_rather_than_programmed() {
    let (mut rtl, mut tuner) = rig();
    // Above what any divider can reach, and not low enough to be upconverted.
    let err = tuner.set_frequency(&mut rtl, 2_500_000_000).unwrap_err();
    assert!(
        matches!(err, TransportError::Io(_)),
        "expected a reported failure, got {err:?}"
    );
}

/// What was last written to the repeater register.
fn last_repeater_write(log: &MockTransport) -> Vec<u8> {
    log.writes()
        .into_iter()
        .filter(|(v, i, _)| (*v, *i) == (0x0120, 0x0011))
        .last()
        .unwrap()
        .2
}

#[test]
fn an_unreachable_frequency_leaves_the_bus_closed() {
    let (mut rtl, mut tuner) = rig();
    let err = tuner.set_frequency(&mut rtl, 2_500_000_000).unwrap_err();
    assert_eq!(
        err.message(),
        "transport error: cannot tune to 2503570000 Hz: OutOfRange"
    );
    assert_eq!(last_repeater_write(&rtl.into_transport()), vec![0x10]);
    assert_eq!(tuner.tuned_frequency(), 0);
    assert_eq!(tuner.band(), Some(Band::Uhf));
}

/// Runs a call whose transfer number `failed` alone fails; gives back what the call returned
/// and the transfers it made.
fn with_one_failure<A>(
    failed: usize,
    call: impl Fn(&mut Rtl2832<Transcript>) -> Result<A, TransportError>,
) -> (Result<A, TransportError>, Vec<Recorded>) {
    let mut answers: Vec<Answer> = Vec::new();
    let mut made = Vec::new();
    loop {
        let mut rtl = Rtl2832::new(Transcript::new(answers.clone()));
        rtl.set_verify_demod_writes(false);
        let outcome = call(&mut rtl);
        let Some(transfer) = rtl.into_transport().wanted else {
            return (outcome, made);
        };
        answers.push(match &transfer {
            _ if made.len() == failed => Answer::Failed(TransportError::Stalled),
            Recorded::Out { .. } => Answer::Sent,
            Recorded::In { len, .. } | Recorded::Bulk { len } => Answer::Received(vec![0; *len]),
        });
        made.push(transfer);
    }
}

#[test]
fn whatever_fails_behind_the_open_bus_it_is_closed_last() {
    let close = Recorded::Out {
        value: 0x0120,
        index: 0x0011,
        data: vec![0x10],
    };
    let calls: Vec<Box<dyn Fn(&mut Rtl2832<Transcript>) -> Result<(), TransportError>>> = vec![
        Box::new(|rtl| R82xx::new_v4().set_frequency(rtl, 7_100_000)),
        Box::new(|rtl| R82xx::new_v4().set_gain(rtl, GainMode::Manual(300))),
        Box::new(|rtl| R82xx::new_v4().init(rtl)),
        Box::new(|rtl| R82xx::new_v4().is_locked(rtl).map(|_| ())),
    ];
    for call in &calls {
        let (whole, all) = with_one_failure(usize::MAX, call);
        assert_eq!(whole, Ok(()));
        // A failure to open ends the call there.
        let (r, made) = with_one_failure(0, call);
        assert_eq!((r, made.len()), (Err(TransportError::Stalled), 1));
        for failed in 1..all.len() {
            let (r, made) = with_one_failure(failed, call);
            assert_eq!(r, Err(TransportError::Stalled), "transfer {failed}");
            assert_eq!(made.last(), Some(&close), "transfer {failed}");
        }
    }
}


#[test]
fn a_duplicate_starts_where_the_first_driver_stands() {
    let (mut rtl, mut tuner) = rig();
    tuner.init(&mut rtl).unwrap();
    tuner.set_frequency(&mut rtl, 98_500_000).unwrap();

    let mut other = tuner.duplicate();
    assert_eq!(other.tuned_frequency(), 98_500_000);
    assert_eq!(other.band(), tuner.band());
    for reg in FIRST_REG..0x20 {
        assert_eq!(other.shadow(reg), tuner.shadow(reg));
    }

    other.set_frequency(&mut rtl, 7_100_000).unwrap();
    assert_eq!(other.band(), Some(Band::Hf));
    assert_eq!(tuner.band(), Some(Band::Vhf));
    assert_eq!(tuner.tuned_frequency(), 98_500_000);
}

/// Runs a call against the answers; gives back what it returned and how many it used.
fn answered<A>(
    answers: Vec<Answer>,
    call: impl Fn(&mut Rtl2832<Transcript>) -> A,
) -> (A, usize) {
    let mut rtl = Rtl2832::new(Transcript::new(answers));
    rtl.set_verify_demod_writes(false);
    let outcome = call(&mut rtl);
    let transcript = rtl.into_transport();
    assert_eq!(transcript.wanted, None);
    (outcome, transcript.used)
}

#[test]
fn the_first_failure_is_reported_when_closing_fails_too() {
    let both = || {
        vec![
            Answer::Sent,
            Answer::Failed(TransportError::Stalled),
            Answer::Failed(TransportError::Disconnected),
        ]
    };
    let calls: Vec<Box<dyn Fn(&mut Rtl2832<Transcript>) -> Result<(), TransportError>>> = vec![
        Box::new(|rtl| R82xx::new_v4().set_frequency(rtl, 7_100_000)),
        Box::new(|rtl| R82xx::new_v4().set_gain(rtl, GainMode::Automatic)),
        Box::new(|rtl| R82xx::new_v4().init(rtl)),
    ];
    for call in &calls {
        assert_eq!(answered(both(), call), (Err(TransportError::Stalled), 3));
    }
    // Reading reports the failure to close.
    assert_eq!(
        answered(both(), |rtl| R82xx::new_v4().is_locked(rtl)),
        (Err(TransportError::Disconnected), 3)
    );
}

#[test]
fn a_refused_frequency_is_reported_when_closing_fails() {
    let tune = |rtl: &mut Rtl2832<Transcript>| R82xx::new_v4().set_frequency(rtl, 2_500_000_000);
    let (_, made) = with_one_failure(usize::MAX, tune);
    let (r, again) = with_one_failure(made.len() - 1, tune);
    assert_eq!(again, made);
    assert_eq!(
        r.unwrap_err().message(),
        "transport error: cannot tune to 2503570000 Hz: OutOfRange"
    );
}
