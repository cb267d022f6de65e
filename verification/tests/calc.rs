use osjeff_core::calc::{Entry, ENTRY_MAX};

#[test]
fn entry_typing_and_erasing() {
    let mut e = Entry::new();
    assert_eq!(e.text(), b"0");
    assert!(e.is_fresh());
    e.push_digit(b'0');
    assert_eq!(e.text(), b"0");
    e.push_digit(b'7');
    assert_eq!(e.text(), b"7");
    e.push_dot();
    e.push_dot();
    e.push_digit(b'5');
    assert_eq!(e.text(), b"7.5");
    e.backspace();
    assert_eq!(e.text(), b"7.");
    e.backspace();
    e.backspace();
    assert_eq!(e.text(), b"0");
    assert!(e.is_fresh());
    // A fresh number after an operator.
    e.push_digit(b'4');
    e.start_fresh();
    e.push_dot();
    assert_eq!(e.text(), b"0.");
    // Full entries ignore more digits.
    let mut f = Entry::new();
    for _ in 0..20 {
        f.push_digit(b'9');
    }
    assert_eq!(f.text().len(), ENTRY_MAX);
    f.show(b"-12.5");
    assert_eq!(f.text(), b"-12.5");
    assert!(!f.is_fresh());
    f.backspace();
    assert_eq!(f.text(), b"-12.");
}
