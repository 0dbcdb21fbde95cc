use owl::activity::activity;
use owl::barber::{
    avatar_data_url, barber_end, data_url, going_message, working_message, BarberOutcome,
};
use owl::dataset::{dataset, join_sentences_of, DatasetError};
use owl::easter::{easter, easter_reply, parse_dataset, EasterEntry};
use owl::hoo::{is_blank_message, reply_target, thread_name};

#[test]
fn activity_replies() {
    assert_eq!(activity(&Some("napping".to_string())), "Set activity to \"napping\".");
    assert_eq!(activity(&Some("say \"hi\"".to_string())), "Set activity to \"say \\\"hi\\\"\".");
    assert_eq!(activity(&None), "Set activity to None.");
}

#[test]
fn barber_messages() {
    let going = going_message();
    assert_eq!(going, "🐱‍🏍 Going to barber ...");
    let working = working_message(&going);
    assert_eq!(working, "🐱‍🏍 Going to barber ...\n🐱‍👤 Barber is working ... ");

    let done = barber_end(&working, BarberOutcome::Updated);
    assert_eq!(done.content, format!("{working}\n✅ Barber finished!"));
    assert!(done.show_avatar);
    assert_eq!(done.error, None);

    let refused = barber_end(
        &working,
        BarberOutcome::Rejected { details: "Bad avatar".to_string(), message: "Invalid Form Body".to_string() },
    );
    assert_eq!(refused.content, format!("{working}\n💥 Barber failed!\n```Bad avatar```\n"));
    assert!(!refused.show_avatar);
    assert_eq!(refused.error, Some("Invalid Form Body".to_string()));

    let failed = barber_end(&working, BarberOutcome::Failed { error: "timeout".to_string() });
    assert_eq!(failed.content, format!("{working}\n💥 Barber totaly failed!\n```timeout```\n"));
    assert_eq!(failed.error, Some("timeout".to_string()));
}

#[test]
fn avatar_urls() {
    assert_eq!(data_url("image/png", "QUJD"), "data:image/png;base64,QUJD");
    assert_eq!(avatar_data_url("image/png", b"ABC"), "data:image/png;base64,QUJD");
    assert_eq!(avatar_data_url("image/gif", b"AB"), "data:image/gif;base64,QUI=");
    assert_eq!(avatar_data_url("image/gif", b""), "data:image/gif;base64,");
}

#[test]
fn avatar_url_carries_the_image() {
    for image in [&b""[..], b"A", b"AB", b"ABC", b"\x00\xff\x10\x80", b"hello owl"] {
        let url = avatar_data_url("image/png", image);
        let encoded = url.strip_prefix("data:image/png;base64,").unwrap();
        let decoded =
            base64::Engine::decode(&base64::engine::general_purpose::STANDARD, encoded).unwrap();
        assert_eq!(decoded, image);
    }
}

#[test]
fn dataset_uploads() {
    assert_eq!(dataset(None), Err(DatasetError::MissingFile));
    assert_eq!(dataset(Some(vec![0xff, 0xfe])), Err(DatasetError::WrongFormat));
    assert_eq!(dataset(Some(b"1. http://a\n2. http://b".to_vec())), Ok("1,http://a\n2,http://b".to_string()));
    assert_eq!(dataset(Some("ř. x".as_bytes().to_vec())), Ok("ř,x".to_string()));
    assert_eq!(DatasetError::MissingFile.message(), "Missing dataset file!");
    assert_eq!(DatasetError::WrongFormat.message(), "Wrong dataset file format!");
}

#[test]
fn written_dataset_has_no_dot_space() {
    for text in ["a. b", ". . .", "..  x", "x.", ". ", "a.b. c"] {
        assert!(!join_sentences_of(text).contains(". "));
    }
    assert_eq!(join_sentences_of(".. x"), ".,x");
}

#[test]
fn dataset_rows() {
    let entries = parse_dataset("1,http://a\n2,http://b,extra\nnocomma\n\n3,");
    let pairs: Vec<(String, String)> = entries.into_iter().map(|e| (e.id, e.url)).collect();
    assert_eq!(
        pairs,
        vec![
            ("1".to_string(), "http://a".to_string()),
            ("2".to_string(), "http://b".to_string()),
            ("3".to_string(), "".to_string()),
        ]
    );
    assert!(parse_dataset("").is_empty());
}

#[test]
fn dataset_written_then_read() {
    let written = dataset(Some(b"7. http://seven\n8. http://eight".to_vec())).unwrap();
    let entries = parse_dataset(&written);
    assert_eq!(entries.len(), 2);
    assert_eq!(entries[0].id, "7");
    assert_eq!(entries[0].url, "http://seven");
}

#[test]
fn easter_picks() {
    assert_eq!(easter("", 5), Err("Failed to find resource :(".to_string()));
    assert_eq!(easter("only\nlines", 5), Err("Failed to find resource :(".to_string()));
    assert_eq!(easter("1,http://a", 123), Ok("🦉 Owl easter video 1 / 1 [🔗](http://a)".to_string()));
    for seed in 0..20u64 {
        let reply = easter("1,http://a\n2,http://b", seed).unwrap();
        assert!(
            reply == "🦉 Owl easter video 1 / 2 [🔗](http://a)"
                || reply == "🦉 Owl easter video 2 / 2 [🔗](http://b)"
        );
    }
    let e = EasterEntry { id: "12".to_string(), url: "u".to_string() };
    assert_eq!(easter_reply(1234, Some(&e)), Ok("🦉 Owl easter video 12 / 1234 [🔗](u)".to_string()));
    assert_eq!(easter_reply(0, None), Err("Failed to find resource :(".to_string()));
}

#[test]
fn easter_pick_follows_the_seed() {
    let dataset = "1,a\n2,b\n3,c\n4,d\n5,e";
    let items = ["1", "2", "3", "4", "5"];
    for seed in 0..50u64 {
        let mut rng = <rand::rngs::StdRng as rand::SeedableRng>::seed_from_u64(seed);
        let id = rand::seq::SliceRandom::choose(&items[..], &mut rng).unwrap();
        let reply = easter(dataset, seed).unwrap();
        assert!(reply.starts_with(&format!("🦉 Owl easter video {id} / 5 ")));
    }
}

#[test]
fn hoo_delivery() {
    assert_eq!(reply_target("/", Some(5)), None);
    assert_eq!(reply_target("!", Some(5)), Some(5));
    assert_eq!(reply_target("🦉", None), None);
    assert_eq!(reply_target("//", Some(9)), Some(9));
    assert_eq!(thread_name("bob"), "🦉 Hoo bob!");
    assert!(is_blank_message(" \t\n\u{a0}"));
    assert!(is_blank_message(""));
    assert!(!is_blank_message(" a "));
}
