use owl::hoo::respond_to_numbers;
use owl::numbers::{clean_message, NumberScanner};

/// Reads a token as the bot does: a float, floored, when it is not negative.
fn read_token(token: &str) -> Option<u64> {
    token
        .parse::<f64>()
        .ok()
        .and_then(|n| if n >= 0.0 { Some(n.floor() as u64) } else { None })
}

/// Runs a scan to its end, counting its moves.
fn scan(msg: &str) -> (Vec<u64>, usize) {
    let mut scanner = NumberScanner::new(msg);
    let mut moves = 0;
    loop {
        moves += 1;
        match scanner.next_step() {
            Some(token) => {
                moves += 1;
                scanner.resume(read_token(&token));
            }
            None => break,
        }
    }
    assert!(scanner.is_done());
    (scanner.numbers(), moves)
}

fn numbers_of(msg: &str) -> Vec<u64> {
    scan(msg).0
}

#[test]
fn plain_numbers() {
    assert_eq!(numbers_of("hoo 42"), vec![42]);
    // After a number, the reader skips white space looking for a suffix and
    // then drops the character it stopped at: here the 9.
    assert_eq!(numbers_of("7 9 0"), vec![7, 0]);
    assert_eq!(numbers_of("7 x 9"), vec![7, 9]);
    assert_eq!(numbers_of("no numbers here"), Vec::<u64>::new());
    assert_eq!(numbers_of(""), Vec::<u64>::new());
}

#[test]
fn underscores_and_separators() {
    assert_eq!(numbers_of("1_000"), vec![1000]);
    assert_eq!(numbers_of("1.000,5"), vec![1000]);
    assert_eq!(numbers_of("2,75"), vec![2]);
    assert_eq!(numbers_of("3.99"), vec![3]);
}

#[test]
fn metric_suffixes() {
    assert_eq!(numbers_of("2k"), vec![2000]);
    assert_eq!(numbers_of("3 m"), vec![3_000_000]);
    assert_eq!(numbers_of("1,5k"), vec![1000]);
    assert_eq!(numbers_of("5K"), vec![5000]);
    assert_eq!(numbers_of("5kg"), vec![5]);
    assert_eq!(numbers_of("4 e"), vec![4_000_000_000_000_000_000]);
    assert_eq!(numbers_of("1q"), Vec::<u64>::new());
    assert_eq!(numbers_of("0q"), Vec::<u64>::new());
    assert_eq!(numbers_of("20e"), Vec::<u64>::new());
}

#[test]
fn mentions_are_skipped() {
    assert_eq!(numbers_of("<@123456> 5"), vec![5]);
    assert_eq!(numbers_of("<@123456>"), Vec::<u64>::new());
}

#[test]
fn negative_and_exponent_tokens() {
    assert_eq!(numbers_of("-5"), Vec::<u64>::new());
    assert_eq!(numbers_of("-0"), vec![0]);
    assert_eq!(numbers_of("hello 5e3"), vec![5]);
    assert_eq!(numbers_of("5e3"), vec![5000]);
}

#[test]
fn scan_ends_within_bound() {
    for msg in ["", "1 2 3", "<@1> 5k x 7", "hello 5e3 world 9", "a b c d e f"] {
        let cleaned = clean_message(msg);
        let (_, moves) = scan(msg);
        assert!(moves <= 2 * cleaned.len() + 2);
    }
}

#[test]
fn cleaning_leaves_no_underscore_or_comma() {
    for msg in ["1_000,5", "a,b,c_d", "1.000,25", "__,,"] {
        let cleaned = clean_message(msg);
        assert!(!cleaned.contains(&'_'));
        assert!(!cleaned.contains(&','));
    }
    assert_eq!(clean_message("1.000,5").into_iter().collect::<String>(), "1000.5");
    assert_eq!(clean_message("ABC").into_iter().collect::<String>(), "abc");
}

fn answer(msg: &str) -> String {
    respond_to_numbers(Some(msg.to_string()), true, &numbers_of(msg))
}

#[test]
fn answers_with_sayings() {
    assert_eq!(answer("42"), "> 🦉 Hoo!\n> 42\nZa 42 si našel odpověď.");
    assert_eq!(answer("0"), "> 🦉 Hoo!\n> 0\nZa 0 si ∞ ptáčků užije.");
    assert_eq!(answer("7"), "> 🦉 Hoo!\n> 7\nZa 7 si devať nezkušiš.");
    assert_eq!(answer("9"), "> 🦉 Hoo!\n> 9\nZa 9 si kabel najdeš.");
    assert_eq!(answer("69"), "> 🦉 Hoo!\n> 69\nZa 69 si nice.");
    assert_eq!(answer("420"), "> 🦉 Hoo!\n> 420\nZa 420 si tě Michal najde.");
    assert_eq!(answer("10"), "> 🦉 Hoo!\n> 10\nZa 10 si ani ptáčka nekoupíš.");
    assert_eq!(answer("50"), "> 🦉 Hoo!\n> 50\nZa 50 si koupíš 1 ptáčka.");
    assert_eq!(answer("100"), "> 🦉 Hoo!\n> 100\nZa 100 si koupíš 2 ptáčky.");
    assert_eq!(answer("300"), "> 🦉 Hoo!\n> 300\nZa 300 si koupíš 6 ptáčků.");
    assert_eq!(answer("15000"), "> 🦉 Hoo!\n> 15000\nZa 15 000 si koupíš 1 sovu.");
    assert_eq!(answer("30001"), "> 🦉 Hoo!\n> 30001\nZa 30 001 si koupíš 2 sovy.");
    assert_eq!(
        answer("1m"),
        "> 🦉 Hoo!\n> 1m\nZa 1 000 000 si koupíš 66 sov."
    );
    assert_eq!(
        answer("15000000000"),
        "> 🦉 Hoo!\n> 15000000000\nZa 15 000 000 000 si koupíš 1 000 000 sov."
    );
}

#[test]
fn powers_of_two_are_binary() {
    assert_eq!(answer("1024"), "> 🦉 Hoo!\n> 1024\nZa 1 024 si binárků užiješ.");
    assert_eq!(answer("1"), "> 🦉 Hoo!\n> 1\nZa 1 si binárků užiješ.");
    assert_eq!(answer("1023"), "> 🦉 Hoo!\n> 1023\nZa 1 023 si koupíš 20 ptáčků.");
}

#[test]
fn several_numbers_in_order() {
    assert_eq!(
        answer("5 a 7"),
        "> 🦉 Hoo!\n> 5 a 7\nZa 5 si ani ptáčka nekoupíš.\nZa 7 si devať nezkušiš."
    );
}

#[test]
fn greeting_without_message() {
    assert_eq!(respond_to_numbers(None, true, &vec![]), "> 🦉 Hoo!");
    assert_eq!(respond_to_numbers(Some("42".to_string()), false, &vec![42]), "> 🦉 Hoo!\nZa 42 si našel odpověď.");
    // A blank message yields no lines, whatever numbers are passed.
    assert_eq!(respond_to_numbers(Some("  \t".to_string()), true, &vec![42]), "> 🦉 Hoo!\n>   \t");
}

#[test]
fn white_space_is_the_unicode_set() {
    let listed = |u: u32| {
        (0x09..=0x0d).contains(&u)
            || u == 0x20
            || u == 0x85
            || u == 0xa0
            || u == 0x1680
            || (0x2000..=0x200a).contains(&u)
            || u == 0x2028
            || u == 0x2029
            || u == 0x202f
            || u == 0x205f
            || u == 0x3000
    };
    for c in (0u32..=0x10ffff).filter_map(char::from_u32) {
        assert_eq!(c.is_whitespace(), listed(c as u32), "{:?}", c);
        assert_eq!(owl::hoo::is_blank_message(&c.to_string()), listed(c as u32));
    }
}
