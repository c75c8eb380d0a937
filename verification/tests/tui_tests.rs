use hitman::cli::{interactive_mode, Args};
use hitman::datepicker::{CalendarDate, DatePicker, DayStyle};
use hitman::extract::extracts_from_status;
use hitman::env::{cookies_from_text, cookies_stored, data_from_text, get_target, target_text};
use hitman::flurry::{try_flurry_plan, try_flurry_summary};
use hitman::keymap::{Event, KeyCode, KeyEvent, KeyEventKind, KeyModifiers};
use hitman::output::Content;
use hitman::request::{try_stream_chunk_output, HitmanBody, HitmanRequest};
use hitman::toml_text::parse_toml;
use hitman::tui::{
    prepared_intent, Action, App, AppState, AskForValueParams, Intent, KeyRefused, Substitution,
    ValueWidget,
};
use hitman::value::TomlValue;

const NONE: KeyModifiers = KeyModifiers {
    shift: false,
    control: false,
    alt: false,
    super_key: false,
    hyper: false,
    meta: false,
};

const CTRL: KeyModifiers = KeyModifiers {
    shift: false,
    control: true,
    alt: false,
    super_key: false,
    hyper: false,
    meta: false,
};

fn key(code: KeyCode, modifiers: KeyModifiers, kind: KeyEventKind) -> Event {
    Event::Key(KeyEvent { code, modifiers, kind })
}

fn press(code: KeyCode) -> Event {
    key(code, NONE, KeyEventKind::Press)
}

fn today() -> CalendarDate {
    CalendarDate { year: 2024, month: 2, day: 28 }
}

fn args() -> Args {
    Args {
        name: None,
        options: Vec::new(),
        repeat: false,
        select: None,
        target: None,
        verbose: false,
        quiet: false,
        non_interactive: false,
        flurry: None,
        connections: None,
        monitor: None,
        watch: false,
    }
}

fn request() -> HitmanRequest {
    HitmanRequest {
        method: "GET".into(),
        url: "http://example.com/".into(),
        headers: vec![("accept".into(), "*/*".into())],
        body: Some(HitmanBody::Plain { body: "hi".into() }),
    }
}

fn app() -> App {
    App::new("dev".into(), vec!["a.http".into(), "b.http".into()])
}

#[test]
fn interactive_unless_told_otherwise() {
    assert!(interactive_mode(&args()));
    assert!(!interactive_mode(&Args { non_interactive: true, ..args() }));
    assert!(!interactive_mode(&Args { watch: true, ..args() }));
    assert!(!interactive_mode(&Args { flurry: Some(100), ..args() }));
}

#[test]
fn toml_text_reads_as_a_table() {
    let t = parse_toml("b = 1\na = \"x\"\n[c]\nd = [true, 2.5]\n").unwrap();
    let keys: Vec<&str> = t.entries().iter().map(|(k, _)| k.as_str()).collect();
    assert_eq!(keys, vec!["a", "b", "c"]);
    assert_eq!(t.get("b"), Some(&TomlValue::Integer(1)));
    match t.get("c") {
        Some(TomlValue::Table(c)) => assert_eq!(
            c.get("d"),
            Some(&TomlValue::Array(vec![
                TomlValue::Boolean(true),
                TomlValue::Float("2.5".into())
            ]))
        ),
        other => panic!("unexpected {:?}", other),
    }
    assert!(parse_toml("a = ").is_err());
}

#[test]
fn a_data_file_that_is_not_toml_reads_as_empty() {
    assert!(data_from_text("not toml at all =").is_empty());
    assert_eq!(data_from_text("x = 2\n").get("x"), Some(&TomlValue::Integer(2)));
}

#[test]
fn cookies_are_stored_and_sent_back() {
    let first = cookies_stored("token = \"t\"\n", vec!["a=1; Path=/".into(), "b=2".into()]);
    assert_eq!(first.get("token"), Some(&TomlValue::String("t".into())));
    let text = "token = \"t\"\nCookies = [\"a=1; Path=/\", \"b=2\"]\n";
    assert_eq!(cookies_from_text(text), Some("a=1; b=2".to_string()));
    let second = cookies_stored(text, vec!["c=3".into()]);
    assert_eq!(
        second.get("Cookies"),
        Some(&TomlValue::Array(vec![TomlValue::String("c=3".into())]))
    );
    assert_eq!(cookies_from_text("Cookies = [\"c=3\"]\n"), Some("c=3".to_string()));
    assert_eq!(cookies_from_text("x = 1\n"), None);
    assert_eq!(cookies_from_text("Cookies = "), None);
}

#[test]
fn moving_in_the_list_previews_the_request() {
    let mut app = app();
    let intent = app.handle_event(&press(KeyCode::Down), None);
    assert!(matches!(intent, Some(Intent::PreviewRequest(Some(ref f))) if f == "a.http"));
    let intent = app.handle_event(&press(KeyCode::Enter), None);
    assert!(matches!(intent, Some(Intent::PrepareRequest(ref f, ref o)) if f == "a.http" && o.is_empty()));
}

#[test]
fn released_keys_are_ignored() {
    let mut app = app();
    let intent = app.handle_event(&key(KeyCode::Down, NONE, KeyEventKind::Release), None);
    assert!(intent.is_none());
    assert_eq!(app.request_selector.selector.selected_item(), None);
}

#[test]
fn main_screen_keys() {
    let mut app = app();
    assert!(matches!(app.handle_event(&press(KeyCode::Esc), None), Some(Intent::Quit)));
    assert!(matches!(
        app.handle_event(&key(KeyCode::Char('e'), CTRL, KeyEventKind::Press), None),
        Some(Intent::EditRequest)
    ));
    assert!(matches!(
        app.handle_event(&key(KeyCode::Char('s'), CTRL, KeyEventKind::Press), None),
        Some(Intent::SelectTarget)
    ));
    assert!(matches!(
        app.handle_event(&key(KeyCode::Char('r'), CTRL, KeyEventKind::Press), None),
        Some(Intent::Update(None))
    ));
}

#[test]
fn a_missing_value_is_asked_for_and_added_to_the_options() {
    let mut app = app();
    let action = app.dispatch(
        Intent::AskForValue {
            key: "name".into(),
            file_path: "a.http".into(),
            pending_options: vec![("x".into(), "1".into())],
            params: AskForValueParams::Prompt { fallback: Some("bob".into()) },
        },
        today(),
    );
    assert!(matches!(action, Action::Nothing));
    match &app.state {
        AppState::PendingValue { widget: ValueWidget::Text(p), .. } => {
            assert_eq!(p.title(), "Enter value for {{name}}");
            assert_eq!(p.value(), "bob");
        }
        _ => panic!("not asking"),
    }
    let intent = app.handle_event(&press(KeyCode::Enter), None);
    match intent {
        Some(Intent::PrepareRequest(f, o)) => {
            assert_eq!(f, "a.http");
            assert_eq!(
                o,
                vec![("x".to_string(), "1".to_string()), ("name".to_string(), "bob".to_string())]
            );
        }
        _ => panic!("not prepared"),
    }
}

#[test]
fn a_date_is_picked_from_a_calendar() {
    let mut app = app();
    app.dispatch(
        Intent::AskForValue {
            key: "start_date".into(),
            file_path: "a.http".into(),
            pending_options: Vec::new(),
            params: AskForValueParams::Prompt { fallback: None },
        },
        today(),
    );
    assert!(app.handle_event(&press(KeyCode::Right), None).is_none());
    match app.handle_event(&press(KeyCode::Enter), None) {
        Some(Intent::PrepareRequest(_, o)) => {
            assert_eq!(o, vec![("start_date".to_string(), "2024-02-29".to_string())])
        }
        _ => panic!("not prepared"),
    }
}

#[test]
fn a_value_is_chosen_from_a_list() {
    let mut app = app();
    app.dispatch(
        Intent::AskForValue {
            key: "id".into(),
            file_path: "a.http".into(),
            pending_options: Vec::new(),
            params: AskForValueParams::Select {
                options: vec![("one".into(), "1".into()), ("two".into(), "2".into())],
            },
        },
        today(),
    );
    assert!(app.handle_event(&press(KeyCode::Down), None).is_none());
    match app.handle_event(&press(KeyCode::Enter), None) {
        Some(Intent::PrepareRequest(_, o)) => assert_eq!(o, vec![("id".to_string(), "2".to_string())]),
        _ => panic!("not prepared"),
    }
    assert!(matches!(app.handle_event(&press(KeyCode::Esc), None), Some(Intent::Abort)));
}

#[test]
fn sending_shows_the_request_and_escape_cancels_it() {
    let mut app = app();
    let action = app.dispatch(
        Intent::SendRequest { file_path: "a.http".into(), request: request() },
        today(),
    );
    match action {
        Action::Send(f, r) => {
            assert_eq!(f, "a.http");
            assert_eq!(r.method, "GET");
            assert_eq!(r.url, "http://example.com/");
            assert_eq!(r.headers, request().headers);
            assert_eq!(r.body.unwrap().to_body(), "hi");
        }
        _ => panic!("not sent"),
    }
    assert!(matches!(app.state, AppState::RunningRequest { .. }));
    assert!(matches!(app.output_view.content, Content::Request(_)));
    let intent = app.handle_event(&press(KeyCode::Esc), None).unwrap();
    assert!(matches!(app.dispatch(intent, today()), Action::CancelRequest));
    assert!(matches!(app.state, AppState::Idle));
}

#[test]
fn outcomes_of_filling_in_a_request() {
    let send = prepared_intent("a.http".into(), Vec::new(), Substitution::Prepared(request()));
    assert!(matches!(send, Intent::SendRequest { ref file_path, .. } if file_path == "a.http"));
    let ask = prepared_intent(
        "a.http".into(),
        Vec::new(),
        Substitution::MultipleValuesFound { key: "id".into(), options: vec![("1".into(), "1".into())] },
    );
    assert!(matches!(ask, Intent::AskForValue { ref key, params: AskForValueParams::Select { .. }, .. } if key == "id"));
    let fail = prepared_intent("a.http".into(), Vec::new(), Substitution::Failed("boom".into()));
    assert!(matches!(fail, Intent::ShowError(ref m) if m == "boom"));
}

#[test]
fn errors_are_shown_until_the_state_changes() {
    let mut app = app();
    app.dispatch(Intent::ShowError("boom".into()), today());
    assert_eq!(app.error, Some("boom".to_string()));
    app.dispatch(Intent::NewRequest, today());
    assert_eq!(app.error, None);
    assert!(matches!(app.dispatch(Intent::AcceptNewRequest("n.http".into()), today()),
        Action::Edit { file: Some(ref f), then: Intent::Update(Some(ref g)) } if f == "n.http" && g == "n.http"));
    app.show_targets(vec!["dev".into(), "prod".into()]);
    assert!(matches!(app.handle_event(&press(KeyCode::Down), None), None));
    assert!(matches!(app.handle_event(&press(KeyCode::Enter), None), Some(Intent::AcceptSelectTarget(ref t)) if t == "prod"));
    app.target_saved("prod".into());
    assert_eq!(app.target, "prod");
}

#[test]
fn values_are_taken_only_from_successful_responses() {
    assert!(extracts_from_status(200));
    assert!(extracts_from_status(204));
    assert!(!extracts_from_status(199));
    assert!(!extracts_from_status(302));
    assert!(!extracts_from_status(401));
}

#[test]
fn the_calendar_shows_the_weeks_of_the_month() {
    let picker = DatePicker::new("d".into(), CalendarDate { year: 2024, month: 2, day: 28 });
    let grid = picker.month_grid(CalendarDate { year: 2024, month: 2, day: 10 }).unwrap();
    assert_eq!(grid.len(), 5);
    assert!(grid.iter().all(|row| row.len() == 7));
    let first = &grid[0][0];
    assert_eq!(first.date, CalendarDate { year: 2024, month: 1, day: 29 });
    assert_eq!(first.style, DayStyle::OtherMonth);
    assert_eq!(grid[0][3].date, CalendarDate { year: 2024, month: 2, day: 1 });
    assert_eq!(grid[0][3].style, DayStyle::Plain);
    assert_eq!(grid[1][5].date, CalendarDate { year: 2024, month: 2, day: 10 });
    assert_eq!(grid[1][5].style, DayStyle::Today);
    assert_eq!(grid[4][2].date, CalendarDate { year: 2024, month: 2, day: 28 });
    assert_eq!(grid[4][2].style, DayStyle::Selected);
    assert_eq!(grid[4][6].date, CalendarDate { year: 2024, month: 3, day: 3 });
}

#[test]
fn keys_the_screen_cannot_take_are_turned_away() {
    let mut empty = App::new("dev".into(), Vec::new());
    assert_eq!(
        empty.try_handle_event(&press(KeyCode::Up), None).err(),
        Some(KeyRefused::NoRows)
    );
    assert!(matches!(empty.state, AppState::Idle));
    let mut app = app();
    assert!(matches!(
        app.try_handle_event(&press(KeyCode::Down), None),
        Ok(Some(Intent::PreviewRequest(Some(_))))
    ));
    app.output_view.scroll = (u16::MAX - 3, 0);
    let scroll_down = key(KeyCode::Char('d'), CTRL, KeyEventKind::Press);
    assert_eq!(app.try_handle_event(&scroll_down, None).err(), Some(KeyRefused::ScrollPastEnd));
    assert_eq!(app.output_view.scroll, (u16::MAX - 3, 0));
}

#[test]
fn batches_that_cannot_be_planned_or_summed_up() {
    assert!(try_flurry_plan(i32::MAX, 2).is_none());
    assert_eq!(try_flurry_plan(5, 2), Some(Ok(vec![3, 2])));
    assert!(try_flurry_summary(&Vec::new()).is_none());
    assert_eq!(try_flurry_summary(&vec![(200, 5)]).map(|s| s.completed), Some(1));
}

#[test]
fn garbled_stream_chunks_are_told_apart() {
    assert_eq!(try_stream_chunk_output("\n\ndata: x"), None);
    assert_eq!(try_stream_chunk_output("data: x\n\n"), Some(Some("x".to_string())));
    assert_eq!(try_stream_chunk_output("nothing"), Some(None));
}

#[test]
fn the_target_set_is_read_back() {
    assert_eq!(get_target(Some(&target_text(" prod \n"))), "prod");
    assert_eq!(get_target(None), "default");
}
