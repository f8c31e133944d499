use editor_core::number::reads_as_float;

fn is_float_text(text: &str) -> bool {
    let chars: Vec<char> = text.chars().collect();
    reads_as_float(&chars)
}

const ACCEPTED: [&str; 40] = [
    "0", "5", "42", "007", "5.", ".5", "0.5", "3.14", "1e5", "1E5", "1e+5", "1e-5", "1.e5",
    ".5e5", "1.5e-3", "12.34E+56", "+1", "-1", "+.5", "-5.", "+1e5", "-1.5e-3", "inf", "INF",
    "Inf", "iNf", "infinity", "Infinity", "INFINITY", "nan", "NaN", "NAN", "+inf", "-inf",
    "+infinity", "-Infinity", "+nan", "-NaN", "1e0005",
    "123456789012345678901234567890123456789012345678901234567890e999999",
];

const REJECTED: [&str; 44] = [
    "", ".", "+", "-", "+.", "-.", "e", "e5", "E5", ".e5", "1e", "1e+", "1e-", "1E", "1e5.",
    "1e5.0", "1e5e5", "1.2.3", "1..2", "..1", "++1", "--1", "+-1", "1+", "1-", "1_000", "0x10",
    "1f", "1.0f64", " 1", "1 ", "1 2", "in", "infi", "infinit", "infinityy", "na", "nan1",
    "nano", "i", "٣", "１", "1,5", "\"1\"",
];

#[test]
fn accepted_float_texts() {
    for text in ACCEPTED {
        assert!(is_float_text(text), "{}", text);
    }
}

#[test]
fn rejected_float_texts() {
    for text in REJECTED {
        assert!(!is_float_text(text), "{}", text);
    }
}

#[test]
fn float_texts_agree_with_parsing() {
    for text in ACCEPTED {
        assert_eq!(is_float_text(text), text.parse::<f64>().is_ok(), "{}", text);
    }
    for text in REJECTED {
        assert_eq!(is_float_text(text), text.parse::<f64>().is_ok(), "{}", text);
    }
}

#[test]
fn short_texts_agree_with_parsing() {
    let alphabet = ['0', '7', '.', 'e', 'E', '+', '-', 'i', 'n', 'f', 'a', 'N', ' ', 'x'];
    let mut indices = vec![0usize];
    loop {
        let text: String = indices.iter().map(|i| alphabet[*i]).collect();
        let chars: Vec<char> = text.chars().collect();
        assert_eq!(reads_as_float(&chars), text.parse::<f64>().is_ok(), "{}", text);
        let mut position = 0;
        while position < indices.len() {
            indices[position] += 1;
            if indices[position] < alphabet.len() {
                break;
            }
            indices[position] = 0;
            position += 1;
        }
        if position == indices.len() {
            if indices.len() == 5 {
                break;
            }
            indices.push(0);
        }
    }
}

#[test]
fn reads_as_float_on_characters() {
    let five: Vec<char> = vec!['5'];
    assert!(reads_as_float(&five));
    let word: Vec<char> = vec!['x', '5'];
    assert!(!reads_as_float(&word));
    let none: Vec<char> = Vec::new();
    assert!(!reads_as_float(&none));
}
