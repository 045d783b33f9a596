use rainbow::commands::{resume, Action, Commands, Config, Event, Line, Next, Pending, Step};
use rainbow::ok_kanye::KanyeQuote;

fn start(command: Commands) -> Step {
    rainbow::commands::start(Config { command })
}

fn out(step: &Step) -> Vec<String> {
    step.lines
        .iter()
        .map(|line| match line {
            Line::Out(text) => format!("out: {text}"),
            Line::Error(text) => format!("err: {text}"),
        })
        .collect()
}

#[test]
fn search_asks_for_the_file_first() {
    let step = start(Commands::Search {
        query: "duct".to_string(),
        file_path: "poem.txt".to_string(),
        ignore_case: true,
    });
    assert!(step.lines.is_empty());
    match step.next {
        Next::Do {
            action: Action::ReadFile { path },
            pending: Pending::Search { query, ignore_case },
        } => {
            assert_eq!(path, "poem.txt");
            assert_eq!(query, "duct");
            assert!(ignore_case);
        }
        other => panic!("unexpected: {:?}", other),
    }
}

#[test]
fn search_prints_the_lines_that_match() {
    let contents = "Rust:\nsafe, fast, productive.\nPick three.\nDuct tape.".to_string();
    let step = resume(
        Pending::Search { query: "duct".to_string(), ignore_case: false },
        Event::FileRead(contents.clone()),
    );
    assert_eq!(out(&step), vec!["out: safe, fast, productive."]);
    assert!(matches!(step.next, Next::Finished));
    let step = resume(
        Pending::Search { query: "duct".to_string(), ignore_case: true },
        Event::FileRead(contents),
    );
    assert_eq!(out(&step), vec!["out: safe, fast, productive.", "out: Duct tape."]);
    assert!(matches!(step.next, Next::Finished));
}

#[test]
fn search_fails_where_the_file_cannot_be_read() {
    let step = resume(
        Pending::Search { query: "x".to_string(), ignore_case: false },
        Event::Failed("No such file or directory (os error 2)".to_string()),
    );
    assert!(step.lines.is_empty());
    match step.next {
        Next::Failed(reason) => assert_eq!(reason, "No such file or directory (os error 2)"),
        other => panic!("unexpected: {:?}", other),
    }
}

#[test]
fn example_echoes_its_argument() {
    let step = start(Commands::Example { example_arg: "hello".to_string() });
    assert_eq!(out(&step), vec!["out: Example command executed with argument: hello"]);
    assert!(matches!(step.next, Next::Finished));
}

#[test]
fn fake_data_hands_over_a_csv_document() {
    let step = start(Commands::FakeData {
        columns: "first:FirstName,age:Number".to_string(),
        rows: 3,
        file_path: "out.csv".to_string(),
    });
    assert!(step.lines.is_empty());
    match step.next {
        Next::Do {
            action: Action::WriteFile { path, contents },
            pending: Pending::Write { file_path },
        } => {
            assert_eq!(path, "out.csv");
            assert_eq!(file_path, "out.csv");
            let text = String::from_utf8(contents).unwrap();
            let lines: Vec<&str> = text.lines().collect();
            assert_eq!(lines.len(), 4);
            assert_eq!(lines[0], "first,age");
            for line in &lines[1..] {
                let fields: Vec<&str> = line.split(',').collect();
                assert_eq!(fields.len(), 2);
                let age: u32 = fields[1].parse().unwrap();
                assert!((1..100).contains(&age));
            }
        }
        other => panic!("unexpected: {:?}", other),
    }
}

#[test]
fn fake_data_reports_a_malformed_token() {
    let step = start(Commands::FakeData {
        columns: "bad".to_string(),
        rows: 3,
        file_path: "out.csv".to_string(),
    });
    assert_eq!(out(&step), vec!["err: Invalid column format 'bad'. Use 'name:type'."]);
    assert!(matches!(step.next, Next::Exit));
}

#[test]
fn fake_data_reports_an_unknown_type() {
    let step = start(Commands::FakeData {
        columns: "x:UnknownType".to_string(),
        rows: 3,
        file_path: "out.csv".to_string(),
    });
    assert_eq!(out(&step), vec!["err: Unsupported fake type 'UnknownType'."]);
    assert!(matches!(step.next, Next::Exit));
}

#[test]
fn fake_data_without_rows_writes_nothing() {
    let step = start(Commands::FakeData {
        columns: "x:Number".to_string(),
        rows: 0,
        file_path: "out.csv".to_string(),
    });
    assert_eq!(out(&step), vec!["err: No data generated. Please check your column types."]);
    assert!(matches!(step.next, Next::Exit));
}

#[test]
fn fake_data_reports_how_writing_went() {
    let step = resume(Pending::Write { file_path: "out.csv".to_string() }, Event::FileWritten);
    assert_eq!(out(&step), vec!["out: Fake data successfully written to out.csv"]);
    assert!(matches!(step.next, Next::Finished));
    let step = resume(
        Pending::Write { file_path: "out.csv".to_string() },
        Event::Failed("disk full".to_string()),
    );
    assert_eq!(out(&step), vec!["err: Failed to write data to CSV: disk full"]);
    assert!(matches!(step.next, Next::Exit));
}

#[test]
fn send_telegram_announces_and_sends() {
    let step = start(Commands::SendTelegram {
        message: "Hello, this is a test message!".to_string(),
        chat_id: "123456789".to_string(),
    });
    assert_eq!(
        out(&step),
        vec!["out: Sending message: 'Hello, this is a test message!' to chat ID: 123456789"]
    );
    match step.next {
        Next::Do { action: Action::SendMessage { chat_id, text }, pending: Pending::Send } => {
            assert_eq!(chat_id, 123456789);
            assert_eq!(text, "Hello, this is a test message!");
        }
        other => panic!("unexpected: {:?}", other),
    }
}

#[test]
fn send_telegram_takes_a_negative_chat_id() {
    let step = start(Commands::SendTelegram {
        message: "m".to_string(),
        chat_id: "-1001234567890".to_string(),
    });
    match step.next {
        Next::Do { action: Action::SendMessage { chat_id, .. }, pending: Pending::Send } => {
            assert_eq!(chat_id, -1001234567890)
        }
        other => panic!("unexpected: {:?}", other),
    }
}

#[test]
fn send_telegram_turns_down_a_chat_id_that_is_no_number() {
    let step = start(Commands::SendTelegram {
        message: "m".to_string(),
        chat_id: "@group".to_string(),
    });
    assert_eq!(
        out(&step),
        vec![
            "out: Sending message: 'm' to chat ID: @group",
            "err: Invalid chat ID format. It should be a number."
        ]
    );
    assert!(matches!(step.next, Next::Exit));
}

#[test]
fn sending_ends_the_command() {
    let step = resume(Pending::Send, Event::MessageSent);
    assert!(step.lines.is_empty());
    assert!(matches!(step.next, Next::Finished));
    let step = resume(Pending::Send, Event::Failed("timeout".to_string()));
    assert_eq!(out(&step), vec!["err: Failed to send message: timeout"]);
    assert!(matches!(step.next, Next::Exit));
}

#[test]
fn good_morning_fetches_a_quote_first() {
    let step = start(Commands::GoodMorningKanye { chat_id: "42".to_string() });
    assert!(step.lines.is_empty());
    match step.next {
        Next::Do { action: Action::FetchQuote, pending: Pending::Greet { chat_id } } => {
            assert_eq!(chat_id, "42")
        }
        other => panic!("unexpected: {:?}", other),
    }
}

#[test]
fn good_morning_sends_the_greeting() {
    let step = resume(
        Pending::Greet { chat_id: "42".to_string() },
        Event::QuoteFetched(KanyeQuote { quote: "I am the best".to_string() }),
    );
    assert!(step.lines.is_empty());
    match step.next {
        Next::Do { action: Action::SendMessage { chat_id, text }, pending: Pending::Send } => {
            assert_eq!(chat_id, 42);
            assert_eq!(text, "Good morning! Kanye says: I am the best");
        }
        other => panic!("unexpected: {:?}", other),
    }
}

#[test]
fn good_morning_reports_a_failed_fetch_and_a_bad_chat_id() {
    let step = resume(
        Pending::Greet { chat_id: "42".to_string() },
        Event::Failed("no route".to_string()),
    );
    assert_eq!(out(&step), vec!["err: Failed to fetch Kanye quote: no route"]);
    assert!(matches!(step.next, Next::Exit));
    let step = resume(
        Pending::Greet { chat_id: "forty-two".to_string() },
        Event::QuoteFetched(KanyeQuote { quote: "q".to_string() }),
    );
    assert_eq!(out(&step), vec!["err: Invalid chat ID format. It should be a number."]);
    assert!(matches!(step.next, Next::Exit));
}

#[test]
fn an_event_that_answers_another_action_fails_the_command() {
    let step = resume(Pending::Send, Event::FileWritten);
    assert!(step.lines.is_empty());
    match step.next {
        Next::Failed(reason) => {
            assert_eq!(reason, "The event does not answer the pending action.")
        }
        other => panic!("unexpected: {:?}", other),
    }
    let step = resume(
        Pending::Write { file_path: "f".to_string() },
        Event::FileRead("text".to_string()),
    );
    assert!(matches!(step.next, Next::Failed(_)));
}
