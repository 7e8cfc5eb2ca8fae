use apery::usioption::{PushButtonOutcome, SetOptionOutcome, UsiOptions};

#[test]
fn test_usi() {}

#[test]
fn usi_options_text_lists_every_option_in_name_order() {
    let options = UsiOptions::new();
    let text = options.to_usi_string();
    let lines: Vec<&str> = text.split('\n').collect();
    assert_eq!(lines.len(), 13);
    assert_eq!(lines[0], "option name Book_Enable type check default false");
    assert_eq!(lines[1], "option name Book_File type filename default book/20191216/book.json");
    assert_eq!(lines[2], "option name Byoyomi_Margin type spin default 500 min 0 max 9223372036854775807");
    assert_eq!(lines[3], "option name Clear_Hash type button");
    assert_eq!(lines[4], "option name Eval_Dir type string default eval/20190617");
    assert_eq!(lines[5], "option name Eval_Hash type spin default 256 min 1 max 1048576");
    assert_eq!(lines[8], "option name Slow_Mover type spin default 100 min 10 max 1000");
    assert_eq!(lines[12], "option name USI_Ponder type check default true");
    let mut sorted = lines.clone();
    sorted.sort_unstable();
    assert_eq!(sorted, lines);
    assert!(!text.ends_with('\n'));
}

#[test]
fn usi_options_getters_give_defaults() {
    let options = UsiOptions::new();
    assert_eq!(options.get_i64(UsiOptions::SLOW_MOVER), 100);
    assert_eq!(options.get_i64(UsiOptions::USI_HASH), 256);
    assert_eq!(options.get_string(UsiOptions::EVAL_DIR), "eval/20190617");
    assert_eq!(options.get_filename(UsiOptions::BOOK_FILE), "book/20191216/book.json");
    assert_eq!(options.get_bool(UsiOptions::USI_PONDER), true);
    assert_eq!(options.get_bool(UsiOptions::BOOK_ENABLE), false);
}

#[test]
fn set_value_updates_and_reports() {
    let mut options = UsiOptions::new();
    assert_eq!(options.set_value(UsiOptions::SLOW_MOVER, "250"), SetOptionOutcome::Updated);
    assert_eq!(options.get_i64(UsiOptions::SLOW_MOVER), 250);
    assert_eq!(options.set_value(UsiOptions::SLOW_MOVER, "5"), SetOptionOutcome::Updated);
    assert_eq!(options.get_i64(UsiOptions::SLOW_MOVER), 10);
    assert_eq!(options.set_value(UsiOptions::SLOW_MOVER, "+99999"), SetOptionOutcome::Updated);
    assert_eq!(options.get_i64(UsiOptions::SLOW_MOVER), 1000);
    assert_eq!(options.set_value(UsiOptions::SLOW_MOVER, "1x"), SetOptionOutcome::NotANumber);
    assert_eq!(options.get_i64(UsiOptions::SLOW_MOVER), 1000);
    assert_eq!(options.set_value(UsiOptions::THREADS, "4"), SetOptionOutcome::SetThreads(4));
    assert_eq!(options.set_value(UsiOptions::USI_HASH, "-3"), SetOptionOutcome::SetHashSize(1));
    assert_eq!(options.set_value(UsiOptions::EVAL_HASH, "64"), SetOptionOutcome::SetEvalHashSize(64));
    assert_eq!(options.get_i64(UsiOptions::EVAL_HASH), 64);
    assert_eq!(options.set_value(UsiOptions::USI_PONDER, "false"), SetOptionOutcome::Updated);
    assert_eq!(options.get_bool(UsiOptions::USI_PONDER), false);
    assert_eq!(options.set_value(UsiOptions::USI_PONDER, "maybe"), SetOptionOutcome::IllegalValue);
    assert_eq!(options.set_value(UsiOptions::EVAL_DIR, "eval/x"), SetOptionOutcome::UpdatedNotReady);
    assert_eq!(options.get_string(UsiOptions::EVAL_DIR), "eval/x");
    assert_eq!(options.set_value(UsiOptions::BOOK_FILE, "b.json"), SetOptionOutcome::UpdatedNotReady);
    assert_eq!(options.get_filename(UsiOptions::BOOK_FILE), "b.json");
    assert_eq!(options.set_value(UsiOptions::CLEAR_HASH, "1"), SetOptionOutcome::IsButton);
    assert_eq!(options.set_value("No_Such_Option", "1"), SetOptionOutcome::IllegalName);
    assert_eq!(options.push_button(UsiOptions::CLEAR_HASH), PushButtonOutcome::Pressed);
    assert_eq!(options.push_button(UsiOptions::THREADS), PushButtonOutcome::NotAButton);
    assert_eq!(options.push_button("No_Such_Option"), PushButtonOutcome::IllegalName);
    let text = options.to_usi_string();
    assert!(text.contains("option name Slow_Mover type spin default 100 min 10 max 1000"));
}
