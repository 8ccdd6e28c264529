use mastermind::{evaluate, Code, Color, CODE_SIZE, COLORS_NBR};

fn all_codes() -> Vec<Code> {
    let mut codes = Vec::new();
    for a in 0..COLORS_NBR {
        for b in 0..COLORS_NBR {
            for c in 0..COLORS_NBR {
                for d in 0..COLORS_NBR {
                    codes.push([
                        Color::from_value(a),
                        Color::from_value(b),
                        Color::from_value(c),
                        Color::from_value(d),
                    ]);
                }
            }
        }
    }
    codes
}

#[test]
fn color_values_round_trip() {
    for v in 0..COLORS_NBR {
        assert_eq!(Color::from_value(v).value(), v);
    }
    assert_eq!(Color::Black.value(), 0);
    assert_eq!(Color::White.value(), 1);
    assert_eq!(Color::Yellow.value(), 2);
    assert_eq!(Color::Blue.value(), 3);
    assert_eq!(Color::Red.value(), 4);
    assert_eq!(Color::Green.value(), 5);
}

#[test]
fn from_value_out_of_range_is_green() {
    assert_eq!(Color::from_value(6), Color::Green);
    assert_eq!(Color::from_value(usize::MAX), Color::Green);
}

#[test]
fn scores_never_exceed_code_size() {
    let codes = all_codes();
    for (i, a) in codes.iter().enumerate().step_by(7) {
        for b in codes.iter().skip(i % 5).step_by(11) {
            let (good, bad) = evaluate(a, b);
            assert!(good + bad <= CODE_SIZE);
        }
    }
}

#[test]
fn identical_codes_score_all_good() {
    for a in all_codes() {
        assert_eq!(evaluate(&a, &a), (4, 0));
    }
}

#[test]
fn disjoint_codes_score_nothing() {
    let a = [Color::Black, Color::White, Color::Yellow, Color::White];
    let b = [Color::Blue, Color::Red, Color::Green, Color::Green];
    assert_eq!(evaluate(&a, &b), (0, 0));
    assert_eq!(evaluate(&b, &a), (0, 0));
}

#[test]
fn duplicate_colors_do_not_match_others() {
    let a = [Color::White, Color::White, Color::White, Color::White];
    let b = [Color::Black, Color::Black, Color::Black, Color::Black];
    assert_eq!(evaluate(&a, &b), (0, 0));
}

#[test]
fn full_displacement_is_all_bad() {
    let a = [Color::White, Color::Blue, Color::Green, Color::Black];
    let b = [Color::Black, Color::White, Color::Blue, Color::Green];
    assert_eq!(evaluate(&a, &b), (0, 4));
}

#[test]
fn exact_match_is_not_counted_again_as_bad() {
    let secret = [Color::Red, Color::Blue, Color::Blue, Color::Yellow];
    let guess = [Color::Red, Color::Red, Color::Yellow, Color::Blue];
    assert_eq!(evaluate(&secret, &guess), (1, 2));
}

#[test]
fn duplicate_guess_colors_credited_once() {
    let secret = [Color::Red, Color::Green, Color::Black, Color::White];
    let guess = [Color::Blue, Color::Red, Color::Red, Color::Yellow];
    assert_eq!(evaluate(&secret, &guess), (0, 1));
}

#[test]
fn mixed_good_and_bad() {
    let secret = [Color::Black, Color::White, Color::Yellow, Color::Blue];
    let guess = [Color::Black, Color::Yellow, Color::White, Color::Green];
    assert_eq!(evaluate(&secret, &guess), (1, 2));
}
