use super_duper_dragon::filter::accept_record;
use super_duper_dragon::filter::split_train_test;

fn lines(parts: &[&str]) -> Vec<Vec<u8>> {
    parts.iter().map(|p| p.as_bytes().to_vec()).collect()
}

fn record(black: &str, white: &str, moves: usize, resign: bool) -> Vec<Vec<u8>> {
    let mut out = Vec::new();
    out.push(format!("'black_rate:someone:{}", black).into_bytes());
    out.push(format!("'white_rate:other:{}", white).into_bytes());
    for i in 0..moves {
        if i % 2 == 0 {
            out.push(b"+7776FU".to_vec());
        } else {
            out.push(b"-3334FU".to_vec());
        }
    }
    if resign {
        out.push(b"%TORYO".to_vec());
    }
    out
}

#[test]
fn test_accept_record() {
    assert!(accept_record(&record("3100.55", "3000.00", 51, true), 3000));
    // too few moves
    assert!(!accept_record(&record("3100.55", "3000.00", 50, true), 3000));
    // no resignation marker
    assert!(!accept_record(&record("3100.55", "3000.00", 51, false), 3000));
    // one side below the threshold
    assert!(!accept_record(&record("3100.55", "2999.99", 51, true), 3000));
    // a lower threshold admits the same record
    assert!(accept_record(&record("2600", "2501.5", 51, true), 2500));
}

#[test]
fn test_accept_record_needs_both_rates() {
    let mut r = record("3100", "3100", 51, true);
    r.remove(1);
    assert!(!accept_record(&r, 3000));
    let mut r = record("3100", "3100", 51, true);
    r.remove(0);
    assert!(!accept_record(&r, 3000));
}

#[test]
fn test_accept_record_last_rate_wins() {
    let mut r = record("2000", "3100", 51, true);
    r.push(b"'black_rate:someone:3200.5".to_vec());
    assert!(accept_record(&r, 3000));
}

#[test]
fn test_accept_record_rejects_malformed_rate() {
    let mut r = record("3100", "3100", 51, true);
    r.push(b"'black_rate:someone:abc".to_vec());
    assert!(!accept_record(&r, 3000));
    // a rating line without a second colon does not parse either
    assert!(!accept_record(&lines(&["'black_rate3100"]), 0));
}

#[test]
fn test_split_train_test() {
    let paths: Vec<String> = (0..20).map(|i| format!("game-{}.csa", i)).collect();
    let (train, test) = split_train_test(paths.clone(), 717);
    assert_eq!(train.len(), 18);
    assert_eq!(test.len(), 2);
    let mut all: Vec<String> = train.into_iter().chain(test.into_iter()).collect();
    all.sort();
    let mut expected = paths;
    expected.sort();
    assert_eq!(all, expected);
}
