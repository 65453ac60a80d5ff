use pitch_detector::bignat::BigNat;
use pitch_detector::note::{
    hz_to_midi_number, hz_to_pitch, pitch_label, PitchClass, PitchLabel, NAME_WIDTH, REFERENCE_HZ,
    REFERENCE_NOTE,
};
use pitch_detector::peak::Frequency;
use pitch_detector::text::{push_decimal, push_padded};

fn hz(numerator: u64, denominator: u64) -> Frequency {
    Frequency::new(numerator, denominator).unwrap()
}

#[test]
fn reference_note_is_a4_at_440_hz() {
    assert_eq!(REFERENCE_HZ, 440);
    assert_eq!(REFERENCE_NOTE, 69);
    assert_eq!(NAME_WIDTH, 2);
    assert_eq!(hz_to_midi_number(hz(REFERENCE_HZ, 1)), REFERENCE_NOTE);
}

#[test]
fn hz_to_pitch_names_440_hz_a4() {
    assert_eq!(hz_to_pitch(hz(440, 1)), "A 4");
}

#[test]
fn hz_to_pitch_names_261_63_hz_c4() {
    assert_eq!(hz_to_pitch(hz(26163, 100)), "C 4");
}

#[test]
fn hz_to_pitch_does_not_pad_a_two_character_name() {
    assert_eq!(hz_to_pitch(hz(27718, 100)), "C\u{266f}4");
    assert_eq!(hz_to_pitch(hz(452893, 1000)), "B\u{266d}4");
}

#[test]
fn hz_to_pitch_below_octave_zero() {
    assert_eq!(hz_to_pitch(hz(81758, 10000)), "C -1");
    assert_eq!(hz_to_pitch(hz(1, 1)), "C -4");
}

#[test]
fn midi_numbers_of_known_frequencies() {
    assert_eq!(hz_to_midi_number(hz(440, 1)), 69);
    assert_eq!(hz_to_midi_number(hz(26163, 100)), 60);
    assert_eq!(hz_to_midi_number(hz(880, 1)), 81);
    assert_eq!(hz_to_midi_number(hz(220, 1)), 57);
    assert_eq!(hz_to_midi_number(hz(4186, 1)), 108);
    assert_eq!(hz_to_midi_number(hz(16, 1)), 12);
    assert_eq!(hz_to_midi_number(hz(81758, 10000)), 0);
    assert_eq!(hz_to_midi_number(hz(1, 1)), -36);
    assert_eq!(hz_to_midi_number(hz(48000, 109)), 69);
    assert_eq!(hz_to_midi_number(hz(48000, 108)), 69);
}

#[test]
fn midi_number_depends_on_the_ratio_alone() {
    assert_eq!(hz_to_midi_number(hz(880, 2)), 69);
    assert_eq!(hz_to_midi_number(hz(44000, 100)), 69);
    assert_eq!(hz_to_midi_number(hz(u64::MAX, u64::MAX)), -36);
}

#[test]
fn midi_number_turns_half_a_semitone_above_the_note() {
    // The edge between A4 and B-flat 4 lies at 440 * 2^(1/24) = 452.89298... Hz.
    assert_eq!(hz_to_midi_number(hz(452892, 1000)), 69);
    assert_eq!(hz_to_midi_number(hz(452893, 1000)), 70);
    // The edge between A-flat 4 and A4 lies at 440 / 2^(1/24) = 427.47405... Hz.
    assert_eq!(hz_to_midi_number(hz(427474, 1000)), 68);
    assert_eq!(hz_to_midi_number(hz(427475, 1000)), 69);
}

#[test]
fn midi_numbers_at_the_ends_of_the_range() {
    assert_eq!(hz_to_midi_number(hz(u64::MAX, 1)), 732);
    assert_eq!(hz_to_midi_number(hz(1, u64::MAX)), -804);
    assert_eq!(hz_to_pitch(hz(u64::MAX, 1)), "C 60");
    assert_eq!(hz_to_pitch(hz(1, u64::MAX)), "C -68");
}

#[test]
fn pitch_classes_in_order_from_c() {
    let expected = [
        (PitchClass::C, "C"),
        (PitchClass::CSharp, "C\u{266f}"),
        (PitchClass::D, "D"),
        (PitchClass::EFlat, "E\u{266d}"),
        (PitchClass::E, "E"),
        (PitchClass::F, "F"),
        (PitchClass::FSharp, "F\u{266f}"),
        (PitchClass::G, "G"),
        (PitchClass::GSharp, "G\u{266f}"),
        (PitchClass::A, "A"),
        (PitchClass::BFlat, "B\u{266d}"),
        (PitchClass::B, "B"),
    ];
    for (i, &(class, name)) in expected.iter().enumerate() {
        let label = pitch_label(60 + i as i32);
        assert_eq!(label, PitchLabel { name: class, octave: 4 });
        assert_eq!(class.as_str(), name);
    }
}

#[test]
fn pitch_label_octaves() {
    assert_eq!(pitch_label(69), PitchLabel { name: PitchClass::A, octave: 4 });
    assert_eq!(pitch_label(0), PitchLabel { name: PitchClass::C, octave: -1 });
    assert_eq!(pitch_label(11), PitchLabel { name: PitchClass::B, octave: -1 });
    assert_eq!(pitch_label(12), PitchLabel { name: PitchClass::C, octave: 0 });
    assert_eq!(pitch_label(127), PitchLabel { name: PitchClass::G, octave: 9 });
}

#[test]
fn pitch_label_of_negative_numbers_wraps_downwards() {
    assert_eq!(pitch_label(-1), PitchLabel { name: PitchClass::B, octave: -2 });
    assert_eq!(pitch_label(-12), PitchLabel { name: PitchClass::C, octave: -2 });
    assert_eq!(pitch_label(-36), PitchLabel { name: PitchClass::C, octave: -4 });
    assert_eq!(pitch_label(-37), PitchLabel { name: PitchClass::B, octave: -5 });
}

#[test]
fn pitch_label_at_the_ends_of_the_range() {
    assert_eq!(pitch_label(i32::MAX), PitchLabel { name: PitchClass::G, octave: 178956969 });
    assert_eq!(pitch_label(i32::MIN), PitchLabel { name: PitchClass::E, octave: -178956972 });
}

#[test]
fn label_text_pads_the_name_to_two_characters() {
    assert_eq!(PitchLabel { name: PitchClass::A, octave: 4 }.text(), "A 4");
    assert_eq!(PitchLabel { name: PitchClass::FSharp, octave: 3 }.text(), "F\u{266f}3");
    assert_eq!(PitchLabel { name: PitchClass::EFlat, octave: -2 }.text(), "E\u{266d}-2");
    assert_eq!(PitchLabel { name: PitchClass::G, octave: 10 }.text(), "G 10");
    assert_eq!(PitchLabel { name: PitchClass::B, octave: i32::MIN }.text(), "B -2147483648");
}

#[test]
fn decimal_text_of_whole_numbers() {
    for value in [0i32, 7, 10, 99, 100, 4096, -1, -10, -12345, i32::MAX, i32::MIN] {
        let mut text = String::from("n=");
        push_decimal(&mut text, value);
        assert_eq!(text, format!("n={}", value));
    }
}

#[test]
fn padding_fills_up_to_the_width() {
    let mut text = String::from("[");
    push_padded(&mut text, "ab", 5);
    text.push(']');
    assert_eq!(text, "[ab   ]");
    let mut text = String::new();
    push_padded(&mut text, "abcdef", 3);
    assert_eq!(text, "abcdef");
    let mut text = String::new();
    push_padded(&mut text, "", 2);
    assert_eq!(text, "  ");
    let mut text = String::new();
    push_padded(&mut text, "\u{266f}\u{266d}", 3);
    assert_eq!(text, "\u{266f}\u{266d} ");
}

#[test]
fn big_numbers_multiply_and_compare() {
    let mut power = BigNat::from_u64(1);
    let mut smaller = BigNat::from_u64(1);
    for _ in 0..40 {
        power = power.mul_small(u64::MAX);
        smaller = smaller.mul_small(u64::MAX - 1);
    }
    assert!(smaller.le(&power));
    assert!(!power.le(&smaller));
    assert!(power.le(&power));
    // (2^64 - 1) * (2^64 - 1) < 2^64 * 2^64 = 2^32 * 2^32 * 2^32 * 2^32
    let square = BigNat::from_u64(u64::MAX).mul_small(u64::MAX);
    let mut two_to_128 = BigNat::from_u64(1);
    for _ in 0..4 {
        two_to_128 = two_to_128.mul_small(1 << 32);
    }
    assert!(square.le(&two_to_128));
    assert!(!two_to_128.le(&square));
    // 3 * 5 = 15
    let fifteen = BigNat::from_u64(3).mul_small(5);
    assert!(fifteen.le(&BigNat::from_u64(15)));
    assert!(BigNat::from_u64(15).le(&fifteen));
    assert!(!fifteen.le(&BigNat::from_u64(14)));
    // Anything times zero is zero, however many limbs it has.
    let zero = power.mul_small(0);
    assert!(zero.le(&BigNat::from_u64(0)));
    assert!(BigNat::from_u64(0).le(&zero));
    assert!(!BigNat::from_u64(1).le(&zero));
}
