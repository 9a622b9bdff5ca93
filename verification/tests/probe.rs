use sdr_bullet::device::Found;
use sdr_bullet::r82xx::R82xx;
use sdr_bullet::receiver::{start_listening, ListenError};
use sdr_bullet::replay::{Answer, Transcript};
use sdr_bullet::rtl2832::Rtl2832;
use sdr_bullet::scan::{level_key, strongest_first};
use sdr_bullet::spectrum::{centre_bins, row_bins, Averager};
use sdr_bullet::survey::{survey, SurveyError};
use sdr_bullet::transport::{MockTransport, Recorded, TransportError};

fn mock() -> Rtl2832<MockTransport> {
    let mut rtl = Rtl2832::new(MockTransport::new());
    rtl.set_verify_demod_writes(false);
    rtl
}

#[test]
fn a_survey_reads_both_addresses_at_both_lengths() {
    let mut rtl = mock();
    for response in [vec![0x09], vec![0x10], vec![0x18], vec![0x69], vec![], vec![0x69, 1, 2]] {
        rtl.transport_mut().push_response(response);
    }
    let found = survey(&mut rtl).unwrap();
    assert_eq!((found.sysctl, found.repeater_before, found.repeater_open), (0x09, 0x10, 0x18));
    let readings: Vec<(u8, usize, Result<(usize, Vec<u8>), TransportError>)> = found
        .readings
        .into_iter()
        .map(|r| (r.i2c_addr, r.len, r.outcome))
        .collect();
    assert_eq!(
        readings,
        vec![
            (0x74, 1, Ok((1, vec![0x69]))),
            (0x34, 1, Ok((0, vec![0]))),
            (0x74, 8, Ok((3, vec![0x69, 1, 2, 0, 0, 0, 0, 0]))),
            (0x34, 8, Ok((8, vec![0; 8]))),
        ]
    );
    let log = rtl.into_transport().log;
    assert_eq!(log[0], Recorded::In { value: 0x2000, index: 0x0100, len: 1 });
    assert_eq!(
        log.last(),
        Some(&Recorded::Out { value: 0x0120, index: 0x0011, data: vec![0x10] })
    );
}

#[test]
fn a_survey_says_where_it_broke_off() {
    for (n, stage) in [(0, 0), (1, 1), (44, 1), (45, 2), (47, 2)] {
        let mut rtl = mock();
        rtl.transport_mut().fail_after = Some(n);
        let reached = match survey(&mut rtl) {
            Err(SurveyError::Control(TransportError::Disconnected)) => 0,
            Err(SurveyError::Baseband(TransportError::Disconnected)) => 1,
            Err(SurveyError::Later(TransportError::Disconnected)) => 2,
            _ => unreachable!(),
        };
        assert_eq!(reached, stage, "failing after {n}");
    }
}

#[test]
fn a_survey_closes_the_repeater_after_a_failed_read_back() {
    // The control register, 44 start-up writes, the repeater register, and opening it.
    let mut answers = vec![Answer::Received(vec![0x09])];
    answers.extend(vec![Answer::Sent; 44]);
    answers.extend([Answer::Received(vec![0x10]), Answer::Sent]);
    answers.push(Answer::Failed(TransportError::Stalled));
    let read_back = answers.len();
    for closing in [Answer::Sent, Answer::Failed(TransportError::Disconnected)] {
        let mut all = answers.clone();
        all.push(closing);
        let mut rtl = Rtl2832::new(Transcript::new(all));
        rtl.set_verify_demod_writes(false);
        match survey(&mut rtl) {
            Err(SurveyError::Later(e)) => assert_eq!(e, TransportError::Stalled),
            _ => unreachable!(),
        }
        let transcript = rtl.into_transport();
        assert_eq!((transcript.used, transcript.wanted), (read_back + 1, None));
    }

    // What it sends there is the closing write.
    let mut rtl = Rtl2832::new(Transcript::new(answers));
    rtl.set_verify_demod_writes(false);
    assert!(survey(&mut rtl).is_err());
    assert_eq!(
        rtl.into_transport().wanted,
        Some(Recorded::Out { value: 0x0120, index: 0x0011, data: vec![0x10] })
    );
}

#[test]
fn listening_starts_at_the_capture_rate() {
    let mut rtl = mock();
    let mut tuner: R82xx<MockTransport> = R82xx::new_v4();
    let (top, bottom) = start_listening(&mut rtl, &mut tuner).unwrap();
    assert_eq!(top / bottom as u64, 2_400_000);
    assert_eq!(tuner.shadow(0x07) & 0x10, 0x10);
    let all = rtl.into_transport().log.len();
    for n in 0..all {
        let mut rtl = mock();
        rtl.transport_mut().fail_after = Some(n);
        let mut tuner: R82xx<MockTransport> = R82xx::new_v4();
        match start_listening(&mut rtl, &mut tuner) {
            Err(ListenError::Rate(TransportError::Disconnected)) => assert!(n < 6),
            Err(ListenError::Gain(TransportError::Disconnected)) => assert!(n >= 6),
            _ => unreachable!(),
        }
    }
}

#[test]
fn level_keys_sort_as_levels_do() {
    let levels = [
        f32::NEG_INFINITY,
        -120.5,
        -20.0,
        -0.25,
        -0.0,
        0.0,
        1e-20,
        3.5,
        f32::INFINITY,
    ];
    for a in levels {
        for b in levels {
            assert_eq!(
                level_key(a.to_bits()).cmp(&level_key(b.to_bits())),
                a.total_cmp(&b),
                "{a} against {b}"
            );
        }
    }
}

#[test]
fn stations_are_ranked_by_level_then_as_heard() {
    let heard = vec![(1, -3), (2, 5), (3, -3), (4, 9), (5, 5), (6, -10)];
    let mut sorted = heard.clone();
    sorted.sort_by(|a, b| b.1.cmp(&a.1));
    assert_eq!(strongest_first(&heard), sorted);
    assert_eq!(
        strongest_first(&heard),
        vec![(4, 9), (2, 5), (5, 5), (1, -3), (3, -3), (6, -10)]
    );
    assert_eq!(strongest_first(&vec![]), vec![]);
}

#[test]
fn rows_and_centres_pick_their_bins() {
    assert_eq!(row_bins(0, 1024), (0, 16));
    assert_eq!(row_bins(63, 1024), (1008, 1024));
    assert_eq!(
        centre_bins(4096),
        vec![4090, 4091, 4092, 4093, 4094, 4095, 0, 1, 2, 3, 4, 5]
    );
}

#[test]
fn the_first_frame_starts_an_average() {
    let half = |old: i32, new: i32| (old + new) / 2;
    let mut a = Averager::new(3, -200);
    assert_eq!(a.bins(), &[-200, -200, -200]);
    a.push(&[10, 20, 30], &half);
    assert_eq!(a.bins(), &[10, 20, 30]);
    a.push(&[0, 0, 10], &half);
    assert_eq!(a.bins(), &[5, 10, 20]);
    a.reset();
    assert_eq!(a.bins(), &[5, 10, 20]);
    a.push(&[1, 2, 3], &half);
    assert_eq!(a.bins(), &[1, 2, 3]);
}

#[test]
fn devices_are_described_line_by_line() {
    let found = Found {
        manufacturer: Some("RTLSDRBlog".to_string()),
        product: Some("Blog V4".to_string()),
        serial: None,
        bus: 3,
        address: 120,
    };
    assert_eq!(
        found.describe(),
        vec![
            "bus 3 address 120",
            "  manufacturer  RTLSDRBlog",
            "  product       Blog V4",
            "  serial        (none)",
            "  identified as RTL-SDR Blog V4 (tuner clocked at 28.8 MHz)",
        ]
    );
    let other = Found { product: None, ..found };
    assert_eq!(other.describe()[2], "  product       (none)");
    assert_eq!(
        other.describe()[4],
        "  identified as a generic RTL2832U board (tuner assumed at 16 MHz)"
    );
}
