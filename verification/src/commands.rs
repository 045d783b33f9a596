//! The commands of the toolbox and the line search behind `Search`.

use crate::export::{csv_document, records_of, write_data_to_csv, WriteError};
use crate::faker::{generate, row_fits};
use crate::number::{i64_of, parse_i64};
use crate::ok_kanye::{greeting_text, KanyeQuote};
use crate::schema::{fault_message, parse, parsed, Column};
use crate::table::Entries;
use crate::text::{
    contains, has_substring, joined, lines, lines_of, lowercase, to_lowercase, views,
};
use vstd::prelude::*;
use vstd::string::StringExecFns;

verus! {

/// What the program was asked to do.
#[derive(Debug, PartialEq, Eq)]
pub struct Config {
    pub command: Commands,
}

/// The commands, each with its arguments as they were typed.
#[derive(Debug, PartialEq, Eq)]
pub enum Commands {
    /// Print the lines of a file that mention `query`.
    Search { query: String, file_path: String, ignore_case: bool },
    /// Echo an argument.
    Example { example_arg: String },
    /// Write `rows` rows of made-up data, one column per `name:type` token
    /// of `columns`, to `file_path` as CSV.
    FakeData { columns: String, rows: usize, file_path: String },
    /// Send `message` to the chat `chat_id`.
    SendTelegram { message: String, chat_id: String },
    /// Send a morning greeting with a quote to the chat `chat_id`.
    GoodMorningKanye { chat_id: String },
}

/// The test a line has to pass to be reported by `search`.
pub open spec fn mentions(query: Seq<char>) -> spec_fn(Seq<char>) -> bool {
    |line: Seq<char>| has_substring(line, query)
}

/// The test a line has to pass to be reported by `search_case_insensitive`.
pub open spec fn mentions_ignoring_case(query: Seq<char>) -> spec_fn(Seq<char>) -> bool {
    |line: Seq<char>| has_substring(lowercase(line), lowercase(query))
}

/// The lines of `contents` in which `query` occurs, in their order.
pub fn search<'a>(query: &str, contents: &'a str) -> (results: Vec<&'a str>)
    ensures
        views(results@) == lines_of(contents@).filter(mentions(query@)),
{
    let all = lines(contents);
    let mut results: Vec<&'a str> = Vec::new();
    let mut i: usize = 0;
    proof {
        reveal(Seq::filter);
        assert(views(all@).take(0).filter(mentions(query@)) == Seq::<Seq<char>>::empty());
    }
    while i < all.len()
        invariant
            i <= all.len(),
            views(all@) == lines_of(contents@),
            views(results@) == views(all@).take(i as int).filter(mentions(query@)),
        decreases all.len() - i,
    {
        let line = all[i];
        let hit = contains(line, query);
        proof {
            reveal(Seq::filter);
            assert(views(all@).take(i + 1).drop_last() == views(all@).take(i as int));
            assert(views(all@).take(i + 1).last() == line@);
            if hit {
                assert(views(results@.push(line)) == views(results@).push(line@));
            }
        }
        if hit {
            results.push(line);
        }
        i += 1;
    }
    proof {
        assert(views(all@).take(i as int) == views(all@));
    }
    results
}

/// The lines of `contents` whose lower-case form holds the lower-case form
/// of `query`, in their order.
pub fn search_case_insensitive<'a>(query: &str, contents: &'a str) -> (results: Vec<&'a str>)
    ensures
        views(results@) == lines_of(contents@).filter(mentions_ignoring_case(query@)),
{
    let needle = to_lowercase(query);
    let all = lines(contents);
    let mut results: Vec<&'a str> = Vec::new();
    let mut i: usize = 0;
    proof {
        reveal(Seq::filter);
        assert(views(all@).take(0).filter(mentions_ignoring_case(query@)) == Seq::<
            Seq<char>,
        >::empty());
    }
    while i < all.len()
        invariant
            i <= all.len(),
            needle@ == lowercase(query@),
            views(all@) == lines_of(contents@),
            views(results@) == views(all@).take(i as int).filter(mentions_ignoring_case(query@)),
        decreases all.len() - i,
    {
        let line = all[i];
        let lowered = to_lowercase(line);
        let hit = contains(lowered.as_str(), needle.as_str());
        proof {
            reveal(Seq::filter);
            assert(views(all@).take(i + 1).drop_last() == views(all@).take(i as int));
            assert(views(all@).take(i + 1).last() == line@);
            if hit {
                assert(views(results@.push(line)) == views(results@).push(line@));
            }
        }
        if hit {
            results.push(line);
        }
        i += 1;
    }
    proof {
        assert(views(all@).take(i as int) == views(all@));
    }
    results
}

/// A line for the terminal.
#[derive(Debug, PartialEq, Eq)]
pub enum Line {
    /// A line for standard output.
    Out(String),
    /// A line for standard error.
    Error(String),
}

/// What a `Line` stands for.
pub enum Printed {
    Out(Seq<char>),
    Error(Seq<char>),
}

impl View for Line {
    type V = Printed;

    open spec fn view(&self) -> Printed {
        match self {
            Line::Out(text) => Printed::Out(text@),
            Line::Error(text) => Printed::Error(text@),
        }
    }
}

/// Work that a command leaves to its surroundings.
#[derive(Debug, PartialEq, Eq)]
pub enum Action {
    /// Read the file at `path` as text.
    ReadFile { path: String },
    /// Write `contents` to the file at `path`.
    WriteFile { path: String, contents: Vec<u8> },
    /// Fetch a quote from the quote service.
    FetchQuote,
    /// Send `text` to the chat `chat_id`.
    SendMessage { chat_id: i64, text: String },
}

/// What a command that waits for an action still has to do.
#[derive(Debug, PartialEq, Eq)]
pub enum Pending {
    /// Search the text that was read.
    Search { query: String, ignore_case: bool },
    /// Report that the table was written to `file_path`.
    Write { file_path: String },
    /// Greet the chat `chat_id` with the quote that was fetched.
    Greet { chat_id: String },
    /// Nothing but to see the message sent.
    Send,
}

/// What came of an action.
#[derive(Debug, PartialEq, Eq)]
pub enum Event {
    /// The file was read; here is its text.
    FileRead(String),
    /// The file was written.
    FileWritten,
    /// The quote service answered.
    QuoteFetched(KanyeQuote),
    /// The message was sent.
    MessageSent,
    /// The action failed for the given reason.
    Failed(String),
}

/// How a command goes on.
#[derive(Debug, PartialEq, Eq)]
pub enum Next {
    /// Perform `action`, then call `resume` with `pending` and what came
    /// of the action.
    Do { action: Action, pending: Pending },
    /// The command is done.
    Finished,
    /// The command failed for the given reason, which is left to the
    /// caller to report.
    Failed(String),
    /// The command failed and has said so; the program ends with exit
    /// status 1.
    Exit,
}

/// One step of a command: the lines to print, then how to go on.
#[derive(Debug, PartialEq, Eq)]
pub struct Step {
    pub lines: Vec<Line>,
    pub next: Next,
}

/// The texts as lines for standard output.
pub open spec fn printed_out(texts: Seq<Seq<char>>) -> Seq<Printed> {
    Seq::new(texts.len(), |i: int| Printed::Out(texts[i]))
}

/// The line that the example command prints for `argument`.
pub open spec fn example_line(argument: Seq<char>) -> Seq<char> {
    "Example command executed with argument: "@ + argument
}

/// The line that announces that `message` goes to the chat `chat_id`.
pub open spec fn sending_line(message: Seq<char>, chat_id: Seq<char>) -> Seq<char> {
    "Sending message: '"@ + message + "' to chat ID: "@ + chat_id
}

/// The line that turns down a chat that is not given as a number.
pub open spec fn bad_chat_id_line() -> Seq<char> {
    "Invalid chat ID format. It should be a number."@
}

/// The line that reports why a message was not sent.
pub open spec fn send_failed_line(reason: Seq<char>) -> Seq<char> {
    "Failed to send message: "@ + reason
}

/// The line that reports why no quote was fetched.
pub open spec fn fetch_failed_line(reason: Seq<char>) -> Seq<char> {
    "Failed to fetch Kanye quote: "@ + reason
}

/// The line that reports that there is no table to write.
pub open spec fn no_data_line() -> Seq<char> {
    "No data generated. Please check your column types."@
}

/// The line that reports why the table was not written.
pub open spec fn write_failed_line(reason: Seq<char>) -> Seq<char> {
    "Failed to write data to CSV: "@ + reason
}

/// The line that reports that the table was written to `file_path`.
pub open spec fn written_line(file_path: Seq<char>) -> Seq<char> {
    "Fake data successfully written to "@ + file_path
}

/// The reason given where an event does not answer the pending action.
pub open spec fn unexpected_event_line() -> Seq<char> {
    "The event does not answer the pending action."@
}

/// Whether `next` asks to send `text` to the chat that `chat_id` denotes.
pub open spec fn sends(next: Next, chat_id: i64, text: Seq<char>) -> bool {
    next matches Next::Do {
        action: Action::SendMessage { chat_id: to, text: sent },
        pending: Pending::Send,
    } && to == chat_id && sent@ == text
}

/// Whether `table` is a made-up table of `rows` rows for `columns`.
pub open spec fn made_up(table: Seq<Entries>, columns: Seq<Column>, rows: usize) -> bool {
    table.len() == rows && forall|r: int| 0 <= r < rows ==> row_fits(#[trigger] table[r], columns)
}

/// Whether `step` hands `table`, rendered as CSV, to the caller to be
/// written to `file_path`; or, where the encoder turns a record of the
/// table down, reports that.
pub open spec fn hands_over(table: Seq<Entries>, file_path: Seq<char>, step: Step) -> bool {
    match csv_document(records_of(table)) {
        Some(bytes) => {
            &&& step.lines@.len() == 0
            &&& step.next matches Next::Do {
                action: Action::WriteFile { path, contents },
                pending: Pending::Write { file_path: target },
            }
            &&& path@ == file_path
            &&& target@ == file_path
            &&& contents@ == bytes
        },
        None => {
            &&& step.next is Exit
            &&& exists|reason: Seq<char>|
                views(step.lines@) == seq![Printed::Error(#[trigger] write_failed_line(reason))]
        },
    }
}

/// Whether `step` is the first step of the command that writes made-up
/// data for the column list `columns` to `file_path`.
///
/// A column list that is turned down is reported, and so is a request
/// for no rows, as there is nothing to write then. Otherwise a table
/// is made up and handed over.
pub open spec fn fake_data_started(
    columns: Seq<char>,
    rows: usize,
    file_path: Seq<char>,
    step: Step,
) -> bool {
    match parsed(columns) {
        Err(fault) => views(step.lines@) == seq![Printed::Error(fault_message(fault))]
            && step.next is Exit,
        Ok(columns) => if rows == 0 {
            views(step.lines@) == seq![Printed::Error(no_data_line())] && step.next is Exit
        } else {
            exists|table: Seq<Entries>|
                #![trigger made_up(table, columns, rows)]
                made_up(table, columns, rows) && hands_over(table, file_path, step)
        },
    }
}

/// Whether `step` is the first step of `command`.
pub open spec fn started(command: Commands, step: Step) -> bool {
    match command {
        Commands::Search { query, file_path, ignore_case } => {
            &&& step.lines@.len() == 0
            &&& step.next matches Next::Do {
                action: Action::ReadFile { path },
                pending: Pending::Search { query: wanted, ignore_case: ignoring },
            }
            &&& path@ == file_path@
            &&& wanted@ == query@
            &&& ignoring == ignore_case
        },
        Commands::Example { example_arg } => {
            &&& views(step.lines@) == seq![Printed::Out(example_line(example_arg@))]
            &&& step.next is Finished
        },
        Commands::FakeData { columns, rows, file_path } => fake_data_started(
            columns@,
            rows,
            file_path@,
            step,
        ),
        Commands::SendTelegram { message, chat_id } => match i64_of(chat_id@) {
            Some(id) => {
                &&& views(step.lines@) == seq![Printed::Out(sending_line(message@, chat_id@))]
                &&& sends(step.next, id, message@)
            },
            None => {
                &&& views(step.lines@) == seq![
                    Printed::Out(sending_line(message@, chat_id@)),
                    Printed::Error(bad_chat_id_line()),
                ]
                &&& step.next is Exit
            },
        },
        Commands::GoodMorningKanye { chat_id } => {
            &&& step.lines@.len() == 0
            &&& step.next matches Next::Do {
                action: Action::FetchQuote,
                pending: Pending::Greet { chat_id: to },
            }
            &&& to@ == chat_id@
        },
    }
}

/// Whether `step` is the step that follows when `event` answers the
/// action that `pending` waits for. An event that does not answer that
/// action makes the command fail.
pub open spec fn resumed(pending: Pending, event: Event, step: Step) -> bool {
    match (pending, event) {
        (Pending::Search { query, ignore_case }, Event::FileRead(contents)) => {
            &&& views(step.lines@) == printed_out(
                lines_of(contents@).filter(
                    if ignore_case {
                        mentions_ignoring_case(query@)
                    } else {
                        mentions(query@)
                    },
                ),
            )
            &&& step.next is Finished
        },
        (Pending::Search { .. }, Event::Failed(reason)) => {
            &&& step.lines@.len() == 0
            &&& step.next matches Next::Failed(given)
            &&& given@ == reason@
        },
        (Pending::Write { file_path }, Event::FileWritten) => {
            &&& views(step.lines@) == seq![Printed::Out(written_line(file_path@))]
            &&& step.next is Finished
        },
        (Pending::Write { .. }, Event::Failed(reason)) => {
            &&& views(step.lines@) == seq![Printed::Error(write_failed_line(reason@))]
            &&& step.next is Exit
        },
        (Pending::Greet { chat_id }, Event::QuoteFetched(quote)) => match i64_of(chat_id@) {
            Some(id) => {
                &&& step.lines@.len() == 0
                &&& sends(step.next, id, greeting_text(quote.quote@))
            },
            None => {
                &&& views(step.lines@) == seq![Printed::Error(bad_chat_id_line())]
                &&& step.next is Exit
            },
        },
        (Pending::Greet { .. }, Event::Failed(reason)) => {
            &&& views(step.lines@) == seq![Printed::Error(fetch_failed_line(reason@))]
            &&& step.next is Exit
        },
        (Pending::Send, Event::MessageSent) => {
            &&& step.lines@.len() == 0
            &&& step.next is Finished
        },
        (Pending::Send, Event::Failed(reason)) => {
            &&& views(step.lines@) == seq![Printed::Error(send_failed_line(reason@))]
            &&& step.next is Exit
        },
        _ => {
            &&& step.lines@.len() == 0
            &&& step.next matches Next::Failed(given)
            &&& given@ == unexpected_event_line()
        },
    }
}

/// A step that prints one line on standard error and ends the program.
fn refusal(text: String) -> (step: Step)
    ensures
        views(step.lines@) == seq![Printed::Error(text@)],
        step.next is Exit,
{
    let mut lines: Vec<Line> = Vec::new();
    lines.push(Line::Error(text));
    let step = Step { lines, next: Next::Exit };
    assert(views(step.lines@) =~= seq![Printed::Error(text@)]);
    step
}

/// The step that asks to send `text` to the chat that `chat_id` denotes,
/// after `lines`; or, where `chat_id` denotes no chat, the refusal.
fn send_step(lines: Vec<Line>, chat_id: &str, text: String) -> (step: Step)
    ensures
        match i64_of(chat_id@) {
            Some(id) => views(step.lines@) == views(lines@) && sends(step.next, id, text@),
            None => views(step.lines@) == views(lines@).push(Printed::Error(bad_chat_id_line()))
                && step.next is Exit,
        },
{
    let mut lines = lines;
    match parse_i64(chat_id) {
        Some(id) => Step {
            lines,
            next: Next::Do {
                action: Action::SendMessage { chat_id: id, text },
                pending: Pending::Send,
            },
        },
        None => {
            let ghost before = views(lines@);
            lines.push(
                Line::Error(String::from_str("Invalid chat ID format. It should be a number.")),
            );
            assert(views(lines@) =~= before.push(Printed::Error(bad_chat_id_line())));
            Step { lines, next: Next::Exit }
        },
    }
}

/// The first step of the command that writes made-up data.
fn start_fake_data(columns: String, rows: usize, file_path: String) -> (step: Step)
    ensures
        fake_data_started(columns@, rows, file_path@, step),
{
    let specs = match parse(columns.as_str()) {
        Ok(specs) => specs,
        Err(e) => {
            return refusal(e.message());
        },
    };
    if rows == 0 {
        return refusal(String::from_str("No data generated. Please check your column types."));
    }
    let table = generate(&specs, rows);
    let ghost made = views(table@);
    assert(made_up(made, views(specs@), rows));
    let step = match write_data_to_csv(table) {
        Ok(contents) => Step {
            lines: Vec::new(),
            next: Next::Do {
                action: Action::WriteFile { path: file_path.clone(), contents },
                pending: Pending::Write { file_path },
            },
        },
        Err(WriteError::Encoding(reason)) => {
            let step = refusal(joined("Failed to write data to CSV: ", reason.as_str()));
            assert(views(step.lines@) == seq![Printed::Error(write_failed_line(reason@))]);
            step
        },
        Err(WriteError::EmptyTable) => refusal(
            String::from_str("No data generated. Please check your column types."),
        ),
    };
    assert(hands_over(made, file_path@, step));
    assert(parsed(columns@) matches Ok(found) && made_up(made, found, rows));
    step
}

/// Takes up the command of `config`: says what to print first and what
/// to do next.
pub fn start(config: Config) -> (step: Step)
    ensures
        started(config.command, step),
{
    match config.command {
        Commands::Search { query, file_path, ignore_case } => Step {
            lines: Vec::new(),
            next: Next::Do {
                action: Action::ReadFile { path: file_path },
                pending: Pending::Search { query, ignore_case },
            },
        },
        Commands::Example { example_arg } => {
            let mut lines: Vec<Line> = Vec::new();
            lines.push(
                Line::Out(joined("Example command executed with argument: ", example_arg.as_str())),
            );
            let step = Step { lines, next: Next::Finished };
            assert(views(step.lines@) =~= seq![Printed::Out(example_line(example_arg@))]);
            step
        },
        Commands::FakeData { columns, rows, file_path } => start_fake_data(
            columns,
            rows,
            file_path,
        ),
        Commands::SendTelegram { message, chat_id } => {
            let mut text = joined("Sending message: '", message.as_str());
            text.append("' to chat ID: ");
            text.append(chat_id.as_str());
            let mut lines: Vec<Line> = Vec::new();
            lines.push(Line::Out(text));
            assert(views(lines@) =~= seq![Printed::Out(sending_line(message@, chat_id@))]);
            let step = send_step(lines, chat_id.as_str(), message);
            assert(i64_of(chat_id@) is None ==> views(step.lines@) =~= seq![
                Printed::Out(sending_line(message@, chat_id@)),
                Printed::Error(bad_chat_id_line()),
            ]);
            step
        },
        Commands::GoodMorningKanye { chat_id } => Step {
            lines: Vec::new(),
            next: Next::Do { action: Action::FetchQuote, pending: Pending::Greet { chat_id } },
        },
    }
}

/// The lines of `contents` that mention `query`, as lines to print.
fn search_step(query: &str, ignore_case: bool, contents: &str) -> (step: Step)
    ensures
        views(step.lines@) == printed_out(
            lines_of(contents@).filter(
                if ignore_case {
                    mentions_ignoring_case(query@)
                } else {
                    mentions(query@)
                },
            ),
        ),
        step.next is Finished,
{
    let results = if ignore_case {
        search_case_insensitive(query, contents)
    } else {
        search(query, contents)
    };
    let mut lines: Vec<Line> = Vec::new();
    let mut i: usize = 0;
    while i < results.len()
        invariant
            i <= results.len(),
            lines@.len() == i,
            forall|k: int| 0 <= k < i ==> (#[trigger] lines@[k])@ == Printed::Out(results@[k]@),
        decreases results.len() - i,
    {
        lines.push(Line::Out(results[i].to_owned()));
        i += 1;
    }
    let step = Step { lines, next: Next::Finished };
    assert(views(step.lines@) =~= printed_out(views(results@)));
    step
}

/// Goes on with a command when the action it waited for has ended: says
/// what to print and what to do next.
pub fn resume(pending: Pending, event: Event) -> (step: Step)
    ensures
        resumed(pending, event, step),
{
    match (pending, event) {
        (Pending::Search { query, ignore_case }, Event::FileRead(contents)) => search_step(
            query.as_str(),
            ignore_case,
            contents.as_str(),
        ),
        (Pending::Search { .. }, Event::Failed(reason)) => Step {
            lines: Vec::new(),
            next: Next::Failed(reason),
        },
        (Pending::Write { file_path }, Event::FileWritten) => {
            let mut lines: Vec<Line> = Vec::new();
            lines.push(Line::Out(joined("Fake data successfully written to ", file_path.as_str())));
            let step = Step { lines, next: Next::Finished };
            assert(views(step.lines@) =~= seq![Printed::Out(written_line(file_path@))]);
            step
        },
        (Pending::Write { .. }, Event::Failed(reason)) => refusal(
            joined("Failed to write data to CSV: ", reason.as_str()),
        ),
        (Pending::Greet { chat_id }, Event::QuoteFetched(quote)) => {
            let lines: Vec<Line> = Vec::new();
            let step = send_step(lines, chat_id.as_str(), quote.greeting());
            assert(i64_of(chat_id@) is None ==> views(step.lines@) =~= seq![
                Printed::Error(bad_chat_id_line()),
            ]);
            step
        },
        (Pending::Greet { .. }, Event::Failed(reason)) => refusal(
            joined("Failed to fetch Kanye quote: ", reason.as_str()),
        ),
        (Pending::Send, Event::MessageSent) => Step { lines: Vec::new(), next: Next::Finished },
        (Pending::Send, Event::Failed(reason)) => refusal(
            joined("Failed to send message: ", reason.as_str()),
        ),
        _ => Step {
            lines: Vec::new(),
            next: Next::Failed(String::from_str("The event does not answer the pending action.")),
        },
    }
}

} // verus!
