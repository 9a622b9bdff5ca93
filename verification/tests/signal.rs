use sdr_bullet::agc::Emphasis;
use sdr_bullet::demod::fm::Squelch;
use sdr_bullet::demod::ssb::{filter_delay, Sideband};
use sdr_bullet::demod::Mode;
use sdr_bullet::iq::usable_bytes;
use sdr_bullet::window::{symmetric_span, Window};

#[test]
fn mode_bandwidths_are_ordered_sensibly() {
    assert!(Mode::Cw.bandwidth() < Mode::Usb.bandwidth());
    assert!(Mode::Usb.bandwidth() < Mode::Am.bandwidth());
    assert!(Mode::Am.bandwidth() < Mode::Nfm.bandwidth());
    assert!(Mode::Nfm.bandwidth() < Mode::Wfm.bandwidth());
    assert!(Mode::Wfm.is_stereo_capable());
    assert!(!Mode::Nfm.is_stereo_capable());
}

#[test]
fn modes_have_labels_and_widths() {
    let all = [Mode::Nfm, Mode::Wfm, Mode::Am, Mode::Usb, Mode::Lsb, Mode::Cw];
    let labels: Vec<&str> = all.iter().map(|m| m.label()).collect();
    assert_eq!(labels, vec!["NFM", "WFM", "AM", "USB", "LSB", "CW"]);
    let widths: Vec<u32> = all.iter().map(|m| m.bandwidth()).collect();
    assert_eq!(widths, vec![12_500, 200_000, 10_000, 2_700, 2_700, 500]);
}

#[test]
fn whole_pairs_that_fit_are_used() {
    assert_eq!(usable_bytes(9, 16), 8);
    assert_eq!(usable_bytes(20, 16), 16);
    assert_eq!(usable_bytes(20, 15), 14);
    assert_eq!(usable_bytes(0, 16), 0);
}

#[test]
fn emphasis_constants_are_told_apart() {
    assert_eq!(Emphasis::from_microseconds(50), Emphasis::Us50);
    assert_eq!(Emphasis::from_microseconds(75), Emphasis::Us75);
    assert_eq!(Emphasis::from_microseconds(60), Emphasis::Off);
    assert_eq!(Emphasis::Us75.microseconds(), 75);
    assert_eq!(Emphasis::Off.microseconds(), 0);
}

#[test]
fn symmetric_windows_span_at_least_one_step() {
    assert_eq!(
        [0, 1, 2, 3, 31].map(|n| symmetric_span(n)),
        [1, 1, 1, 2, 30]
    );
    assert_ne!(Window::Kaiser(860), Window::Kaiser(861));
}

#[test]
fn the_squelch_opens_and_closes_on_a_ramp() {
    let mut squelch = Squelch::new(4);
    assert!(squelch.is_open());
    // Switched off it never gates, whatever is measured.
    assert_eq!(squelch.advance(false, true), (4, 4));
    assert!(squelch.settle());
    squelch.set_enabled(true);
    squelch.reset();
    assert!(squelch.is_enabled() && !squelch.is_open());
    let levels: Vec<usize> = (0..6).map(|_| squelch.advance(true, false).0).collect();
    assert_eq!(levels, vec![1, 2, 3, 4, 4, 4]);
    // Between the thresholds nothing changes.
    assert_eq!(squelch.advance(false, false), (4, 4));
    assert!(squelch.settle());
    let levels: Vec<usize> = (0..6).map(|_| squelch.advance(false, true).0).collect();
    assert_eq!(levels, vec![3, 2, 1, 0, 0, 0]);
    assert!(!squelch.settle());
    squelch.set_enabled(false);
    assert!(squelch.is_open());
    assert_eq!(squelch.advance(false, true), (4, 4));
    assert_eq!(Squelch::new(0).advance(false, false), (1, 1));
}

#[test]
fn only_lower_sideband_listens_below() {
    assert_eq!(Sideband::for_mode(Mode::Lsb), Sideband::Lower);
    assert_eq!(Sideband::for_mode(Mode::Usb), Sideband::Upper);
    assert_eq!(Sideband::for_mode(Mode::Cw), Sideband::Upper);
    assert_eq!(filter_delay(129), 64);
}
