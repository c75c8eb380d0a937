use hitman::datepicker::{CalendarDate, DatePicker, DateOutOfRange};
use hitman::keymap::{keymap_list, mapkey, Event, KeyCode, KeyEvent, KeyEventKind, KeyMapping, KeyModifiers};
use hitman::output::{
    Content, HttpMessage, HttpRequestInfo, HttpRequestMessage, LineStyle, OutputView,
    RequestStatus,
};
use hitman::request::{HitmanBody, HitmanRequest};
use hitman::select::{Chosen, RequestSelector, Select, SelectIntent, SelectItem};
use hitman::widgets::{Help, Progress, PromptIntent, SimplePrompt};

const NONE: KeyModifiers = KeyModifiers {
    shift: false,
    control: false,
    alt: false,
    super_key: false,
    hyper: false,
    meta: false,
};

const CTRL: KeyModifiers = KeyModifiers {
    shift: false,
    control: true,
    alt: false,
    super_key: false,
    hyper: false,
    meta: false,
};

fn key(code: KeyCode, modifiers: KeyModifiers) -> Event {
    Event::Key(KeyEvent {
        code,
        modifiers,
        kind: KeyEventKind::Press,
    })
}

fn press(code: KeyCode) -> Event {
    key(code, NONE)
}

#[test]
fn keys_map_to_actions() {
    assert_eq!(mapkey(&press(KeyCode::Up)), KeyMapping::Up);
    assert_eq!(mapkey(&press(KeyCode::Esc)), KeyMapping::Abort);
    assert_eq!(mapkey(&press(KeyCode::Enter)), KeyMapping::Accept);
    assert_eq!(mapkey(&key(KeyCode::Char('j'), CTRL)), KeyMapping::Down);
    assert_eq!(mapkey(&key(KeyCode::Char('c'), CTRL)), KeyMapping::Abort);
    assert_eq!(mapkey(&key(KeyCode::Char(' '), CTRL)), KeyMapping::ToggleHeaders);
    assert_eq!(mapkey(&press(KeyCode::Char(','))), KeyMapping::ToggleWrap);
    assert_eq!(mapkey(&press(KeyCode::Char('?'))), KeyMapping::ToggleHelp);
    assert_eq!(mapkey(&press(KeyCode::Char('<'))), KeyMapping::IncreaseWidth);
    assert_eq!(mapkey(&press(KeyCode::Char('>'))), KeyMapping::DecreaseWitdh);
    assert_eq!(mapkey(&press(KeyCode::Char('j'))), KeyMapping::Unmapped);
    let released = Event::Key(KeyEvent {
        code: KeyCode::Up,
        modifiers: NONE,
        kind: KeyEventKind::Release,
    });
    assert_eq!(mapkey(&released), KeyMapping::Unmapped);
    assert_eq!(mapkey(&Event::Other), KeyMapping::Unmapped);
    let shifted = KeyModifiers { shift: true, ..CTRL };
    assert_eq!(mapkey(&key(KeyCode::Char('j'), shifted)), KeyMapping::Unmapped);
}

#[test]
fn keymap_list_has_every_shortcut() {
    let list = keymap_list();
    assert_eq!(list.len(), 14);
    assert_eq!(list[0], ("<C-j> or <C-n>", "Select next"));
    assert_eq!(list[13], (">", "Decrease output width"));
}

#[test]
fn help_pads_the_keys() {
    let lines = Help.lines();
    assert_eq!(lines[0], "<C-j> or <C-n> Select next");
    assert_eq!(lines[2], "<C-u>          Scroll up");
}

#[test]
fn progress_bounces() {
    assert_eq!(Progress.frame(0), "===             ");
    assert_eq!(Progress.frame(50), " ===            ");
    assert_eq!(Progress.frame(26 * 50), "===             ");
}

fn items() -> Vec<String> {
    vec!["alpha".into(), "beta".into(), "gamma".into()]
}

#[test]
fn select_moves_and_wraps() {
    let mut s = Select::new("T".into(), "P".into(), items());
    assert_eq!(s.selected_item(), Some(0));
    assert_eq!(
        s.handle_event(&press(KeyCode::Up), None),
        Some(SelectIntent::Change(Some("gamma".into())))
    );
    assert_eq!(
        s.handle_event(&press(KeyCode::Down), None),
        Some(SelectIntent::Change(Some("alpha".into())))
    );
    assert_eq!(
        s.handle_event(&press(KeyCode::Enter), None),
        Some(SelectIntent::Accept(Chosen::Single("alpha".into())))
    );
    assert_eq!(
        s.handle_event(&press(KeyCode::Esc), None),
        Some(SelectIntent::Abort)
    );
}

#[test]
fn select_filters_by_search() {
    let mut s = Select::new("T".into(), "P".into(), items());
    let change = s.handle_event(&press(KeyCode::Char('m')), Some("mm".into()));
    assert_eq!(change, Some(SelectIntent::Change(Some("gamma".into()))));
    assert_eq!(s.row_count(), 1);
    assert_eq!(s.search_text(), "mm");
    let rows = s.get_filtered_items();
    assert_eq!(rows[0].0, 2);
    assert!(rows[0].1.is_some());
}

#[test]
fn select_several_items() {
    let mut s = Select::new("T".into(), "P".into(), items()).with_multiple(true);
    assert_eq!(
        s.handle_event(&press(KeyCode::Tab), None),
        Some(SelectIntent::Change(Some("beta".into())))
    );
    assert!(s.is_chosen(0));
    s.handle_event(&key(KeyCode::Char(' '), CTRL), None);
    assert!(s.is_chosen(1));
    assert_eq!(
        s.handle_event(&press(KeyCode::Enter), None),
        Some(SelectIntent::Accept(Chosen::Multiple(vec![
            "alpha".into(),
            "beta".into()
        ])))
    );
    s.handle_event(&key(KeyCode::Char(' '), CTRL), None);
    assert!(!s.is_chosen(1));
}

#[test]
fn select_without_choice_accepts_the_current_item() {
    let mut s = Select::new("T".into(), "P".into(), items()).with_multiple(true);
    assert_eq!(
        s.handle_event(&press(KeyCode::Enter), None),
        Some(SelectIntent::Accept(Chosen::Multiple(vec!["alpha".into()])))
    );
    let mut single = Select::new("T".into(), "P".into(), items());
    assert_eq!(single.handle_event(&press(KeyCode::Tab), None), None);
}

#[test]
fn select_set_items_clears_the_cursor() {
    let mut s = Select::new("T".into(), "P".into(), items());
    s.set_items(vec!["x".into(), "y".into()]);
    assert_eq!(s.selected_item(), None);
    s.select_next();
    assert_eq!(s.selected_item(), Some(0));
    s.try_select("y");
    assert_eq!(s.selected_item(), Some(1));
    s.try_select("nothing");
    assert_eq!(s.selected_item(), Some(1));
    s.select_prev();
    assert_eq!(s.selected_item(), Some(0));
}

fn request() -> HitmanRequest {
    HitmanRequest {
        method: "GET".into(),
        url: "http://e.com/".into(),
        headers: vec![],
        body: None,
    }
}

#[test]
fn output_view_lines_of_a_response() {
    let mut v = OutputView::new();
    assert_eq!(v.title(), "");
    assert!(v.make_lines().is_empty());
    v.show_request(HttpRequestInfo::new(
        HttpRequestMessage(request()),
        RequestStatus::Complete {
            response: HttpMessage {
                header: "< HTTP/1.1 200 OK\n< a: 1\n".into(),
                body: "{}\n".into(),
            },
            elapsed_nanos: 5,
        },
    ));
    assert_eq!(v.title(), "Output");
    let lines: Vec<(String, LineStyle)> = v
        .make_lines()
        .into_iter()
        .map(|l| (l.text, l.style))
        .collect();
    assert_eq!(
        lines,
        vec![
            ("> GET http://e.com/".to_string(), LineStyle::Request),
            ("".to_string(), LineStyle::Plain),
            ("< HTTP/1.1 200 OK".to_string(), LineStyle::ResponseHead),
            ("< a: 1".to_string(), LineStyle::ResponseHead),
            ("{}".to_string(), LineStyle::ResponseBody),
        ]
    );
    v.handle_event(&key(KeyCode::Char(' '), CTRL));
    assert!(v.noheaders);
    assert_eq!(v.mode_string(), "W");
    let lines: Vec<String> = v.make_lines().into_iter().map(|l| l.text).collect();
    assert_eq!(lines, vec!["> GET http://e.com/", "< HTTP/1.1 200 OK", "{}"]);
}

#[test]
fn output_view_scrolls_and_previews() {
    let mut v = OutputView::new();
    v.show_preview("GET {{url}}\nA: 1".into());
    assert_eq!(v.title(), "Preview");
    let lines: Vec<String> = v.make_lines().into_iter().map(|l| l.text).collect();
    assert_eq!(lines, vec!["> GET {{url}}", "> A: 1"]);
    v.handle_event(&key(KeyCode::Char('d'), CTRL));
    v.handle_event(&key(KeyCode::Char('d'), CTRL));
    assert_eq!(v.scroll, (30, 0));
    v.scroll_up();
    assert_eq!(v.scroll, (15, 0));
    v.scroll_up();
    v.scroll_up();
    assert_eq!(v.scroll, (0, 0));
    assert_eq!(v.mode_string(), "HW");
    v.reset();
    assert!(matches!(v.content, Content::Empty));
}

#[test]
fn output_view_shows_errors() {
    let mut v = OutputView::new();
    v.show_request(HttpRequestInfo::new(
        HttpRequestMessage(HitmanRequest {
            body: Some(HitmanBody::Plain { body: "b".into() }),
            ..request()
        }),
        RequestStatus::Failed {
            error: "boom\nagain".into(),
        },
    ));
    let lines: Vec<(String, LineStyle)> = v
        .make_lines()
        .into_iter()
        .map(|l| (l.text, l.style))
        .collect();
    assert_eq!(lines[lines.len() - 2], ("boom".to_string(), LineStyle::Error));
    assert_eq!(lines[1], ("> ".to_string(), LineStyle::Request));
    assert_eq!(lines[2], ("> b".to_string(), LineStyle::Request));
}

#[test]
fn simple_prompt_accepts_typed_text() {
    let mut p = SimplePrompt::new("Name".into());
    assert_eq!(p.handle_prompt(&press(KeyCode::Char('a')), Some("a".into())), None);
    assert_eq!(p.value(), "a");
    assert_eq!(
        p.handle_prompt(&press(KeyCode::Enter), None),
        Some(PromptIntent::Accept("a".into()))
    );
    assert_eq!(
        p.handle_prompt(&press(KeyCode::Esc), None),
        Some(PromptIntent::Abort)
    );
}

#[test]
fn date_picker_moves_by_day_week_and_month() {
    let today = CalendarDate {
        year: 2024,
        month: 1,
        day: 31,
    };
    let mut d = DatePicker::new("When".into(), today);
    assert_eq!(d.handle_prompt(&press(KeyCode::Right)), None);
    assert_eq!(
        d.selected,
        CalendarDate {
            year: 2024,
            month: 2,
            day: 1
        }
    );
    d.handle_prompt(&press(KeyCode::Up));
    assert_eq!(
        d.selected,
        CalendarDate {
            year: 2024,
            month: 1,
            day: 25
        }
    );
    let mut e = DatePicker::new("When".into(), today);
    e.handle_prompt(&key(KeyCode::Char('d'), CTRL));
    assert_eq!(
        e.selected,
        CalendarDate {
            year: 2024,
            month: 2,
            day: 29
        }
    );
    assert_eq!(
        e.handle_prompt(&press(KeyCode::Enter)),
        Some(PromptIntent::Accept("2024-02-29".into()))
    );
}

#[test]
fn date_picker_fallback() {
    let today = CalendarDate {
        year: 2024,
        month: 5,
        day: 5,
    };
    let d = DatePicker::new("When".into(), today).with_fallback(Some("2020-02-02".into()));
    assert_eq!(
        d.selected,
        CalendarDate {
            year: 2020,
            month: 2,
            day: 2
        }
    );
    let e = DatePicker::new("When".into(), today).with_fallback(Some("soon".into()));
    assert_eq!(e.selected, today);
}

#[test]
fn date_picker_refuses_to_leave_the_calendar() {
    let last = CalendarDate {
        year: 262142,
        month: 12,
        day: 31,
    };
    let mut d = DatePicker::new("When".into(), last);
    assert_eq!(
        d.try_handle_prompt(&press(KeyCode::Right)),
        Err(DateOutOfRange::OutOfRange)
    );
    assert_eq!(d.selected, last);
    assert_eq!(d.try_handle_prompt(&press(KeyCode::Left)), Ok(None));
}

#[test]
fn request_selector_lists_files() {
    let mut r = RequestSelector::new();
    assert_eq!(r.selector.title(), "Requests");
    assert_eq!(r.selector.prompt(), "Search");
    assert_eq!(r.selector.row_count(), 0);
    r.populate(vec!["a.http".into(), "b/c.http".into()]);
    assert_eq!(r.selector.selected_item(), None);
    r.try_select("b/c.http");
    assert_eq!(r.selector.selected_item(), Some(1));
    assert_eq!(String::from("x.http").text(), "x.http");
}

#[test]
fn scrolling_up_undoes_scrolling_down() {
    let mut v = OutputView::new();
    v.scroll = (7, 3);
    v.scroll_down();
    v.scroll_up();
    assert_eq!(v.scroll, (7, 3));
}

#[test]
fn dates_outside_four_digit_years_are_written_with_a_sign() {
    let mut far = DatePicker::new("When".into(), CalendarDate { year: 10000, month: 1, day: 5 });
    assert_eq!(
        far.handle_prompt(&press(KeyCode::Enter)),
        Some(PromptIntent::Accept("+10000-01-05".into()))
    );
    let mut early = DatePicker::new("When".into(), CalendarDate { year: -1, month: 12, day: 9 });
    assert_eq!(
        early.handle_prompt(&press(KeyCode::Enter)),
        Some(PromptIntent::Accept("-0001-12-09".into()))
    );
}
