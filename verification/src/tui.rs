use crate::datepicker::{date_text, moved, moves, ymd, CalendarDate, DatePicker};
use crate::keymap::{event_meaning, mapkey, Event, KeyEventKind, KeyMapping};
use crate::output::{
    scrolled_down, scrolled_up, HttpRequestInfo, HttpRequestMessage, OutputView, RequestStatus,
    SCROLL_STEP,
};
use crate::prompt::is_date_key;
use crate::request::HitmanRequest;
use crate::select::{
    labels_view, opt_intent_view, select_step, IntentView, RequestSelector, Select, SelectIntent,
    Chosen,
};
use crate::widgets::{Progress, PromptIntent, SimplePrompt};
use vstd::prelude::*;
use vstd::string::*;

verus! {

/// The widget that asks for a value missing from the scope.
pub enum ValueWidget {
    /// A list of the values the scope holds for it, each shown by its
    /// label; beside it, item by item, the text each value inserts.
    Choose(Select, Vec<String>),
    /// A calendar, for a date.
    Date(DatePicker),
    /// A line of text.
    Text(SimplePrompt),
}

/// What the interactive screen is doing.
pub enum AppState {
    /// Showing the list of request files.
    Idle,
    /// Asking for the value of `key` before `file_path` can be sent, with
    /// the values given so far.
    PendingValue {
        file_path: String,
        key: String,
        pending_options: Vec<(String, String)>,
        widget: ValueWidget,
    },
    /// Asking for the name of a new request file.
    NewRequestPrompt { prompt: SimplePrompt },
    /// Waiting for a request to complete.
    RunningRequest { progress: Progress },
    /// Asking which target to use.
    SelectTarget { component: Select },
}

/// How a missing value is to be asked for.
pub enum AskForValueParams {
    /// Typed in, or picked from a calendar for a date, starting from the
    /// fallback value.
    Prompt { fallback: Option<String> },
    /// Picked from the values the scope holds: each value's label, and
    /// the text it inserts.
    Select { options: Vec<(String, String)> },
}

/// What the screen is to do next.
pub enum Intent {
    Quit,
    Abort,
    /// List the request files anew, then show the one given.
    Update(Option<String>),
    /// Show a request file.
    PreviewRequest(Option<String>),
    /// Fill in a request file, with the values given.
    PrepareRequest(String, Vec<(String, String)>),
    /// Ask for the value of `key`.
    AskForValue {
        key: String,
        file_path: String,
        pending_options: Vec<(String, String)>,
        params: AskForValueParams,
    },
    /// Send a request made from a request file.
    SendRequest { file_path: String, request: HitmanRequest },
    /// Show how a request went.
    ShowResult(HttpRequestInfo),
    SelectTarget,
    AcceptSelectTarget(String),
    EditRequest,
    NewRequest,
    AcceptNewRequest(String),
    ShowError(String),
}

/// The outside work an intent asks for, which the program around the
/// screen does before it hands the outcome back.
pub enum Action {
    /// Nothing.
    Nothing,
    /// Stop the request that is running.
    CancelRequest,
    /// List the request files, then `App::requests_found`.
    Rescan(Option<String>),
    /// Load the scope and fill in the request file, then `prepared_intent`.
    Prepare(String, Vec<(String, String)>),
    /// Read the request file, then `App::show_preview`.
    ReadPreview(String),
    /// Send the request, then `Intent::ShowResult` with how it went.
    Send(String, HitmanRequest),
    /// List the targets of the configuration, then `App::show_targets`.
    ListTargets,
    /// Store the target, then `App::target_saved`.
    SaveTarget(String),
    /// Open the file, if there is one, in the editor, then go on with
    /// `then`.
    Edit { file: Option<String>, then: Intent },
}

/// What filling in a request file came to.
pub enum Substitution {
    /// The request, complete.
    Prepared(HitmanRequest),
    /// The scope holds several values for `key`: each value's label, and
    /// the text it inserts.
    MultipleValuesFound { key: String, options: Vec<(String, String)> },
    /// The scope holds no value for `key`.
    ValueNotFound { key: String, fallback: Option<String> },
    /// Another error, with its message.
    Failed(String),
}

/// The intent that follows filling in the request file `file_path` with
/// the values `options`: send it, ask for a missing value, or show the
/// error.
pub fn prepared_intent(file_path: String, options: Vec<(String, String)>, outcome: Substitution) -> (res:
    Intent)
    ensures
        res == match outcome {
            Substitution::Prepared(request) => (Intent::SendRequest { file_path, request }),
            Substitution::MultipleValuesFound { key, options: choices } => (Intent::AskForValue {
                key,
                file_path,
                pending_options: options,
                params: AskForValueParams::Select { options: choices },
            }),
            Substitution::ValueNotFound { key, fallback } => (Intent::AskForValue {
                key,
                file_path,
                pending_options: options,
                params: AskForValueParams::Prompt { fallback },
            }),
            Substitution::Failed(m) => Intent::ShowError(m),
        },
{
    match outcome {
        Substitution::Prepared(request) => Intent::SendRequest { file_path, request },
        Substitution::MultipleValuesFound { key, options: choices } => Intent::AskForValue {
            key,
            file_path,
            pending_options: options,
            params: AskForValueParams::Select { options: choices },
        },
        Substitution::ValueNotFound { key, fallback } => Intent::AskForValue {
            key,
            file_path,
            pending_options: options,
            params: AskForValueParams::Prompt { fallback },
        },
        Substitution::Failed(m) => Intent::ShowError(m),
    }
}

/// The interactive screen: the list of request files, the output pane,
/// what the screen is doing, the target, and the error shown.
pub struct App {
    pub target: String,
    pub request_selector: RequestSelector,
    pub output_view: OutputView,
    pub state: AppState,
    pub error: Option<String>,
    pub should_quit: bool,
}

/// An answer a prompt gives.
pub enum AnswerView {
    Abort,
    Accept(Seq<char>),
}

/// The key is pressed (not repeated or released).
pub open spec fn pressed(event: Event) -> bool {
    event matches Event::Key(k) && k.kind == KeyEventKind::Press
}

/// What a list that asks for one item answers to a key: the item under the
/// cursor on enter, an abort on escape.
pub open spec fn list_answer(s: Select, m: KeyMapping) -> Option<AnswerView> {
    match m {
        KeyMapping::Accept => match s.accepted() {
            Some(IntentView::Single(l)) => Some(AnswerView::Accept(l)),
            _ => None,
        },
        KeyMapping::Abort => Some(AnswerView::Abort),
        _ => None,
    }
}

/// What a line prompt answers to a key: its text on enter, an abort on
/// escape.
pub open spec fn text_answer(p: SimplePrompt, m: KeyMapping) -> Option<AnswerView> {
    match m {
        KeyMapping::Accept => Some(AnswerView::Accept(p.input())),
        KeyMapping::Abort => Some(AnswerView::Abort),
        _ => None,
    }
}

/// What the widget asking for a value answers to a key.
pub open spec fn widget_answer(w: ValueWidget, m: KeyMapping) -> Option<AnswerView> {
    match w {
        ValueWidget::Choose(s, values) => match m {
            KeyMapping::Accept => match s.current() {
                Some(p) => Some(AnswerView::Accept(values@[p as int]@)),
                None => None,
            },
            KeyMapping::Abort => Some(AnswerView::Abort),
            _ => None,
        },
        ValueWidget::Date(d) => match m {
            KeyMapping::Accept => Some(AnswerView::Accept(date_text(ymd(d.selected)))),
            KeyMapping::Abort => Some(AnswerView::Abort),
            _ => None,
        },
        ValueWidget::Text(p) => text_answer(p, m),
    }
}

/// How a line prompt changes with a key: the text typed, unless the key
/// accepts or aborts.
pub open spec fn text_step(before: SimplePrompt, after: SimplePrompt, m: KeyMapping, edited: Option<String>) -> bool {
    &&& after.title_text() == before.title_text()
    &&& after.input() == match m {
        KeyMapping::Accept | KeyMapping::Abort => before.input(),
        _ => match edited {
            Some(v) => v@,
            None => before.input(),
        },
    }
}

/// How the widget asking for a value changes with a key.
pub open spec fn widget_step(before: ValueWidget, after: ValueWidget, event: Event, edited: Option<String>) -> bool {
    match (before, after) {
        (ValueWidget::Choose(s0, v0), ValueWidget::Choose(s1, v1)) => select_step(
            s0,
            s1,
            event,
            edited,
            select_result(s0, s1, event, edited),
        ) && v1 == v0,
        (ValueWidget::Date(d0), ValueWidget::Date(d1)) => d1.title == d0.title && if moves(
            event_meaning(event),
        ) {
            Some(ymd(d1.selected)) == moved(d0.selected, event_meaning(event))
        } else {
            d1.selected == d0.selected
        },
        (ValueWidget::Text(p0), ValueWidget::Text(p1)) => text_step(p0, p1, event_meaning(event), edited),
        _ => false,
    }
}

/// The widget can take the key: a list needs rows to move over, a
/// calendar must stay in its range.
pub open spec fn widget_takes(w: ValueWidget, event: Event) -> bool {
    match w {
        ValueWidget::Choose(s, _) => s.takes(event),
        ValueWidget::Date(d) => moves(event_meaning(event)) ==> moved(d.selected, event_meaning(event)) is Some,
        ValueWidget::Text(_) => true,
    }
}

/// What a list's reaction to a key gives (`select_step` fixes it): the
/// item now under the cursor after a move, what is accepted on enter, an
/// abort on escape.
pub open spec fn select_result(before: Select, after: Select, event: Event, edited: Option<String>) -> Option<IntentView> {
    match event_meaning(event) {
        KeyMapping::Up | KeyMapping::Down => Some(IntentView::Change(after.current_label())),
        KeyMapping::Tab | KeyMapping::ToggleHeaders => if before.multiple() {
            Some(IntentView::Change(after.current_label()))
        } else {
            None
        },
        KeyMapping::Accept => before.accepted(),
        KeyMapping::Abort => Some(IntentView::Abort),
        KeyMapping::Unmapped => match edited {
            Some(_) => Some(IntentView::Change(after.current_label())),
            None => None,
        },
        _ => None,
    }
}

/// The text of an optional label.
pub open spec fn opt_text(o: Option<String>) -> Option<Seq<char>> {
    match o {
        Some(s) => Some(s@),
        None => None,
    }
}

/// How the output pane changes with a key (`OutputView::handle_event`).
pub open spec fn output_step(before: OutputView, after: OutputView, m: KeyMapping) -> bool {
    &&& after.content == before.content
    &&& after.scroll == match m {
        KeyMapping::ScrollUp => (scrolled_up(before.scroll.0), before.scroll.1),
        KeyMapping::ScrollDown => (scrolled_down(before.scroll.0), before.scroll.1),
        _ => before.scroll,
    }
    &&& after.nowrap == (before.nowrap != (m == KeyMapping::ToggleWrap))
    &&& after.noheaders == (before.noheaders != (m == KeyMapping::ToggleHeaders))
}

/// The intent of a key on the main screen that the list of requests left
/// alone: edit, reload (keeping the request under the cursor), a new
/// request, quit, or choose the target.
pub open spec fn main_key_intent(m: KeyMapping, selected: Option<Seq<char>>, res: Option<Intent>) -> bool {
    match m {
        KeyMapping::Editor => res == Some(Intent::EditRequest),
        KeyMapping::Reload => res matches Some(Intent::Update(o)) && opt_text(o) == selected,
        KeyMapping::New => res == Some(Intent::NewRequest),
        KeyMapping::Abort => res == Some(Intent::Quit),
        KeyMapping::SelectTarget => res == Some(Intent::SelectTarget),
        _ => res is None,
    }
}

/// The options given so far, with the value just accepted for `key`.
pub open spec fn with_answer(
    options: Seq<(String, String)>,
    key: Seq<char>,
    answer: Option<AnswerView>,
) -> Seq<(Seq<char>, Seq<char>)> {
    let o = options.map_values(|p: (String, String)| (p.0@, p.1@));
    match answer {
        Some(AnswerView::Accept(v)) => o.push((key, v)),
        _ => o,
    }
}

pub open spec fn options_view(options: Seq<(String, String)>) -> Seq<(Seq<char>, Seq<char>)> {
    options.map_values(|p: (String, String)| (p.0@, p.1@))
}

/// How the screen reacts to a key, from `before` to `after`, giving `res`:
/// a key that is not pressed changes nothing; otherwise the widget on top
/// gets it (the list of requests, then the output pane and the main keys,
/// on the main screen), and what it answers becomes the intent.
pub open spec fn handled(before: App, after: App, event: Event, edited: Option<String>, res: Option<Intent>) -> bool {
    &&& after.target == before.target
    &&& after.error == before.error
    &&& after.should_quit == before.should_quit
    &&& !pressed(event) ==> after == before && res is None
    &&& pressed(event) ==> match before.state {
                AppState::Idle => after.state is Idle && select_step(
                    before.request_selector.selector,
                    after.request_selector.selector,
                    event,
                    edited,
                    select_result(
                        before.request_selector.selector,
                        after.request_selector.selector,
                        event,
                        edited,
                    ),
                ) && match select_result(
                    before.request_selector.selector,
                    after.request_selector.selector,
                    event,
                    edited,
                ) {
                        Some(IntentView::Single(f)) => after.output_view == before.output_view && (res matches Some(Intent::PrepareRequest(p, o)) && p@
                            == f && o@.len() == 0),
                        Some(IntentView::Change(l)) => after.output_view == before.output_view && (res matches Some(Intent::PreviewRequest(p)) && opt_text(p)
                            == l),
                        _ => output_step(
                            before.output_view,
                            after.output_view,
                            event_meaning(event),
                        ) && main_key_intent(
                            event_meaning(event),
                            after.request_selector.selector.current_label(),
                            res,
                        ),
                    },
                AppState::PendingValue { file_path, key, pending_options, widget: component } => (after.state matches AppState::PendingValue {
                    file_path: f1,
                    key: k1,
                    pending_options: o1,
                    widget: c1,
                } && f1 == file_path && k1 == key && widget_step(component, c1, event, edited)
                    && options_view(o1@) == with_answer(
                    pending_options@,
                    key@,
                    widget_answer(component, event_meaning(event)),
                )) && after.request_selector == before.request_selector && after.output_view == before.output_view && match widget_answer(
                    component,
                    event_meaning(event),
                ) {
                    Some(AnswerView::Abort) => res == Some(Intent::Abort),
                    Some(AnswerView::Accept(_)) => res matches Some(Intent::PrepareRequest(p, o))
                        && p == file_path && options_view(o@) == with_answer(
                        pending_options@,
                        key@,
                        widget_answer(component, event_meaning(event)),
                    ),
                    None => res is None,
                },
                AppState::NewRequestPrompt { prompt } => (after.state matches AppState::NewRequestPrompt {
                    prompt: p1,
                } && text_step(prompt, p1, event_meaning(event), edited)) && after.request_selector
                    == before.request_selector && after.output_view == before.output_view
                    && match text_answer(prompt, event_meaning(event)) {
                    Some(AnswerView::Abort) => res == Some(Intent::Abort),
                    Some(AnswerView::Accept(v)) => res matches Some(Intent::AcceptNewRequest(s)) && s@
                        == v,
                    None => res is None,
                },
                AppState::RunningRequest { .. } => after == before && if event_meaning(
                    event,
                ) == KeyMapping::Abort {
                    res == Some(Intent::Abort)
                } else {
                    res is None
                },
                AppState::SelectTarget { component } => (after.state matches AppState::SelectTarget {
                    component: c1,
                } && select_step(component, c1, event, edited, select_result(component, c1, event, edited)))
                    && after.request_selector == before.request_selector && after.output_view == before.output_view && match list_answer(
                    component,
                    event_meaning(event),
                ) {
                    Some(AnswerView::Abort) => res == Some(Intent::Abort),
                    Some(AnswerView::Accept(v)) => res matches Some(Intent::AcceptSelectTarget(s))
                        && s@ == v,
                    None => res is None,
                },
            }
}

impl App {
    /// The lists the screen holds ask for one item each.
    pub open spec fn wf(self) -> bool {
        &&& !self.request_selector.selector.multiple()
        &&& match self.state {
            AppState::PendingValue { widget: ValueWidget::Choose(s, values), .. } => !s.multiple()
                && values@.len() == s.items().len(),
            AppState::SelectTarget { component } => !component.multiple(),
            _ => true,
        }
    }

    /// The screen can take the key: the widget that gets it can (on the
    /// main screen the output pane can scroll down too).
    pub open spec fn takes(self, event: Event) -> bool {
        pressed(event) ==> match self.state {
            AppState::Idle => self.request_selector.selector.takes(event) && (event_meaning(event)
                == KeyMapping::ScrollDown ==> self.output_view.scroll.0 + SCROLL_STEP <= u16::MAX),
            AppState::PendingValue { widget, .. } => widget_takes(widget, event),
            AppState::SelectTarget { component } => component.takes(event),
            _ => true,
        }
    }

    /// The screen on the target `target`, listing the request files
    /// `requests`, showing nothing.
    pub fn new(target: String, requests: Vec<String>) -> (res: App)
        ensures
            res.wf(),
            res.target == target,
            res.request_selector.selector.items() == labels_view(requests@),
            res.request_selector.selector.cursor() is None,
            res.output_view.content is Empty,
            res.state is Idle,
            res.error is None,
            !res.should_quit,
    {
        let mut request_selector = RequestSelector::new();
        request_selector.populate(requests);
        App {
            target,
            request_selector,
            output_view: OutputView::new(),
            state: AppState::Idle,
            error: None,
            should_quit: false,
        }
    }

    /// Reacts to a key. `edited` is the text of the input field that gets
    /// the key (the search of a list, or a prompt's line) after it, when
    /// the key changed it. Only pressed keys count.
    pub fn handle_event(&mut self, event: &Event, edited: Option<String>) -> (res: Option<Intent>)
        requires
            old(self).wf(),
            old(self).takes(*event),
        ensures
            final(self).wf(),
            handled(*old(self), *final(self), *event, edited, res),
    {
        let is_press = match event {
            Event::Key(k) => match k.kind {
                KeyEventKind::Press => true,
                _ => false,
            },
            Event::Other => false,
        };
        if !is_press {
            return None;
        }
        let meaning = mapkey(event);
        let mut state = AppState::Idle;
        std::mem::swap(&mut state, &mut self.state);
        match state {
            AppState::Idle => {
                let got = self.request_selector.selector.handle_event(event, edited);
                let ghost r = select_result(
                    old(self).request_selector.selector,
                    self.request_selector.selector,
                    *event,
                    edited,
                );
                assert(opt_intent_view(got) == r);
                match got {
                    Some(SelectIntent::Accept(Chosen::Single(f))) => {
                        return Some(Intent::PrepareRequest(f, Vec::new()));
                    },
                    Some(SelectIntent::Change(l)) => {
                        return Some(Intent::PreviewRequest(l));
                    },
                    _ => {},
                }
                self.output_view.handle_event(event);
                let res = match meaning {
                    KeyMapping::Editor => Some(Intent::EditRequest),
                    KeyMapping::Reload => Some(
                        Intent::Update(self.request_selector.selector.current_text()),
                    ),
                    KeyMapping::New => Some(Intent::NewRequest),
                    KeyMapping::Abort => Some(Intent::Quit),
                    KeyMapping::SelectTarget => Some(Intent::SelectTarget),
                    _ => None,
                };
                assert(main_key_intent(meaning, self.request_selector.selector.current_label(), res));
                assert(output_step(old(self).output_view, self.output_view, meaning));
                res
            },
            AppState::PendingValue { file_path, key, mut pending_options, widget: component } => {
                let (component, answer) = match component {
                    ValueWidget::Choose(mut s, values) => {
                        let ghost s0 = s;
                        let got = s.handle_event(event, edited);
                        assert(select_step(s0, s, *event, edited, opt_intent_view(got)));
                        let answer = match got {
                            Some(SelectIntent::Abort) => Some(PromptIntent::Abort),
                            Some(SelectIntent::Accept(Chosen::Single(_))) => match s.selected_item() {
                                Some(p) => Some(PromptIntent::Accept(values[p].clone())),
                                None => None,
                            },
                            _ => None,
                        };
                        (ValueWidget::Choose(s, values), answer)
                    },
                    ValueWidget::Date(mut d) => {
                        let answer = d.handle_prompt(event);
                        (ValueWidget::Date(d), answer)
                    },
                    ValueWidget::Text(mut p) => {
                        let answer = p.handle_prompt(event, edited);
                        (ValueWidget::Text(p), answer)
                    },
                };
                let ghost before_options = pending_options@;
                let ghost wanted = with_answer(
                    before_options,
                    key@,
                    widget_answer(old(self).state->widget, meaning),
                );
                let res = match answer {
                    Some(PromptIntent::Abort) => Some(Intent::Abort),
                    Some(PromptIntent::Accept(v)) => {
                        let ghost vv = v@;
                        pending_options.push((key.clone(), v));
                        assert(options_view(pending_options@) =~= options_view(before_options).push(
                            (key@, vv),
                        ));
                        Some(Intent::PrepareRequest(file_path.clone(), clone_options(&pending_options)))
                    },
                    None => None,
                };
                assert(options_view(pending_options@) == wanted);
                self.state = AppState::PendingValue { file_path, key, pending_options, widget: component };
                res
            },
            AppState::NewRequestPrompt { mut prompt } => {
                let answer = prompt.handle_prompt(event, edited);
                self.state = AppState::NewRequestPrompt { prompt };
                match answer {
                    Some(PromptIntent::Abort) => Some(Intent::Abort),
                    Some(PromptIntent::Accept(s)) => Some(Intent::AcceptNewRequest(s)),
                    None => None,
                }
            },
            AppState::RunningRequest { progress } => {
                self.state = AppState::RunningRequest { progress };
                match meaning {
                    KeyMapping::Abort => Some(Intent::Abort),
                    _ => None,
                }
            },
            AppState::SelectTarget { mut component } => {
                let got = component.handle_event(event, edited);
                self.state = AppState::SelectTarget { component };
                match got {
                    Some(SelectIntent::Abort) => Some(Intent::Abort),
                    Some(SelectIntent::Accept(Chosen::Single(s))) => Some(Intent::AcceptSelectTarget(s)),
                    _ => None,
                }
            },
        }
    }
}

/// The title of the list of values for `key`.
pub open spec fn choose_title(key: Seq<char>) -> Seq<char> {
    "Select substitution value for "@ + "{{"@ + key + "}}"@
}

/// The title of the calendar for `key`.
pub open spec fn date_title(key: Seq<char>) -> Seq<char> {
    "Select "@ + "{{"@ + key + "}}"@
}

/// The title of the line prompt for `key`.
pub open spec fn text_title(key: Seq<char>) -> Seq<char> {
    "Enter value for "@ + "{{"@ + key + "}}"@
}

/// The widget that asks for the value of `key`: the list of the values
/// the scope holds; else a calendar for a date (its name ends with `_date`
/// or `Date`), on the fallback date or `today`; else a line, filled in
/// with the fallback value.
pub open spec fn asks_with(w: ValueWidget, key: Seq<char>, params: AskForValueParams, today: CalendarDate) -> bool {
    match params {
        AskForValueParams::Select { options } => w matches ValueWidget::Choose(s, values)
            && s.title_text() == choose_title(key) && s.prompt_text() == key && s.items()
            == options@.map_values(|o: (String, String)| o.0@) && labels_view(values@)
            == options@.map_values(|o: (String, String)| o.1@)
            && s.cursor() == Some(0usize) && s.chosen().len() == 0 && s.search().len() == 0
            && !s.multiple(),
        AskForValueParams::Prompt { fallback } => if crate::env::has_suffix(key, "_date"@)
            || crate::env::has_suffix(key, "Date"@) {
            w matches ValueWidget::Date(d) && d.title@ == date_title(key) && Some(ymd(d.selected))
                == match fallback {
                Some(f) => match crate::datepicker::date_parse(f@) {
                    Some(p) => Some(p),
                    None => Some(ymd(today)),
                },
                None => Some(ymd(today)),
            }
        } else {
            w matches ValueWidget::Text(p) && p.title_text() == text_title(key) && p.input()
                == match fallback {
                Some(f) => f@,
                None => Seq::empty(),
            }
        },
    }
}

impl App {
    /// Moves to `state`, clearing the error shown.
    fn set_state(&mut self, state: AppState)
        ensures
            final(self).state == state,
            final(self).error is None,
            final(self).target == old(self).target,
            final(self).request_selector == old(self).request_selector,
            final(self).output_view == old(self).output_view,
            final(self).should_quit == old(self).should_quit,
    {
        self.error = None;
        self.state = state;
    }

    /// Carries out an intent as far as it can be without outside work, and
    /// says what outside work is left. `today` is the date a calendar
    /// starts on.
    pub fn dispatch(&mut self, intent: Intent, today: CalendarDate) -> (res: Action)
        requires
            old(self).wf(),
        ensures
            final(self).wf(),
            final(self).request_selector == old(self).request_selector,
            final(self).target == old(self).target,
            match intent {
                Intent::Quit => final(self).should_quit && final(self).state == old(self).state
                    && final(self).error == old(self).error && final(self).output_view == old(self).output_view
                    && res is Nothing,
                Intent::Abort => final(self).state is Idle && final(self).error is None
                    && final(self).output_view == old(self).output_view && final(self).should_quit
                    == old(self).should_quit && res == if old(self).state is RunningRequest {
                    Action::CancelRequest
                } else {
                    Action::Nothing
                },
                Intent::Update(selected) => *final(self) == *old(self) && res == Action::Rescan(selected),
                Intent::PrepareRequest(f, o) => *final(self) == *old(self) && res == Action::Prepare(f, o),
                Intent::PreviewRequest(Some(f)) => *final(self) == *old(self) && res == Action::ReadPreview(f),
                Intent::PreviewRequest(None) => final(self).state is Idle && final(self).error is None
                    && final(self).output_view.content is Empty && final(self).output_view.scroll == (0u16, 0u16)
                    && final(self).output_view.noheaders == old(self).output_view.noheaders
                    && final(self).output_view.nowrap == old(self).output_view.nowrap
                    && final(self).should_quit == old(self).should_quit && res is Nothing,
                Intent::SendRequest { file_path, request } => (final(self).state is RunningRequest)
                    && final(self).error is None && (final(self).output_view.content matches crate::output::Content::Request(info)
                    && info.request.0 == request && info.status is Running)
                    && final(self).output_view.scroll == (0u16, 0u16)
                    && final(self).output_view.noheaders == old(self).output_view.noheaders
                    && final(self).output_view.nowrap == old(self).output_view.nowrap
                    && final(self).should_quit == old(self).should_quit && (res matches Action::Send(f, r)
                    && f == file_path && r.same_as(request)),
                Intent::AskForValue { key, file_path, pending_options, params } => (final(self).state matches AppState::PendingValue {
                    file_path: f1,
                    key: k1,
                    pending_options: o1,
                    widget: w,
                } && f1 == file_path && k1 == key && o1 == pending_options && asks_with(w, key@, params, today))
                    && final(self).error is None && final(self).output_view == old(self).output_view
                    && final(self).should_quit == old(self).should_quit && res is Nothing,
                Intent::ShowResult(info) => final(self).state is Idle && final(self).error is None
                    && final(self).output_view.content == crate::output::Content::Request(info)
                    && final(self).output_view.scroll == (0u16, 0u16)
                    && final(self).output_view.noheaders == old(self).output_view.noheaders
                    && final(self).output_view.nowrap == old(self).output_view.nowrap
                    && final(self).should_quit == old(self).should_quit && res is Nothing,
                Intent::SelectTarget => *final(self) == *old(self) && res is ListTargets,
                Intent::AcceptSelectTarget(t) => *final(self) == *old(self) && res == Action::SaveTarget(t),
                Intent::EditRequest => *final(self) == *old(self) && (res matches Action::Edit {
                    file,
                    then: Intent::PreviewRequest(p),
                } && opt_text(file) == old(self).request_selector.selector.current_label() && opt_text(p)
                    == old(self).request_selector.selector.current_label()),
                Intent::NewRequest => (final(self).state matches AppState::NewRequestPrompt { prompt }
                    && prompt.title_text() == "Name of request"@ && prompt.input().len() == 0)
                    && final(self).error is None && final(self).output_view == old(self).output_view
                    && final(self).should_quit == old(self).should_quit && res is Nothing,
                Intent::AcceptNewRequest(f) => *final(self) == *old(self) && (res matches Action::Edit {
                    file: Some(f1),
                    then: Intent::Update(Some(f2)),
                } && f1@ == f@ && f2@ == f@),
                Intent::ShowError(e) => final(self).state is Idle && final(self).error == Some(e)
                    && final(self).output_view == old(self).output_view && final(self).should_quit
                    == old(self).should_quit && res is Nothing,
            },
    {
        match intent {
            Intent::Quit => {
                self.should_quit = true;
                Action::Nothing
            },
            Intent::Abort => {
                let running = match self.state {
                    AppState::RunningRequest { .. } => true,
                    _ => false,
                };
                self.set_state(AppState::Idle);
                if running {
                    Action::CancelRequest
                } else {
                    Action::Nothing
                }
            },
            Intent::Update(selected) => Action::Rescan(selected),
            Intent::PrepareRequest(f, o) => Action::Prepare(f, o),
            Intent::PreviewRequest(Some(f)) => Action::ReadPreview(f),
            Intent::PreviewRequest(None) => {
                self.output_view.reset();
                self.set_state(AppState::Idle);
                Action::Nothing
            },
            Intent::SendRequest { file_path, request } => {
                let sent = request.duplicate();
                let info = HttpRequestInfo::new(HttpRequestMessage(request), RequestStatus::Running);
                self.output_view.show_request(info);
                self.set_state(AppState::RunningRequest { progress: Progress });
                Action::Send(file_path, sent)
            },
            Intent::AskForValue { key, file_path, pending_options, params } => {
                let widget = ask_widget(&key, params, today);
                self.set_state(AppState::PendingValue { file_path, key, pending_options, widget });
                Action::Nothing
            },
            Intent::ShowResult(info) => {
                self.output_view.show_request(info);
                self.set_state(AppState::Idle);
                Action::Nothing
            },
            Intent::SelectTarget => Action::ListTargets,
            Intent::AcceptSelectTarget(t) => Action::SaveTarget(t),
            Intent::EditRequest => {
                let file = self.request_selector.selector.current_text();
                let again = self.request_selector.selector.current_text();
                Action::Edit { file, then: Intent::PreviewRequest(again) }
            },
            Intent::NewRequest => {
                let prompt = SimplePrompt::new(String::from_str("Name of request"));
                proof {
                    reveal_strlit("Name of request");
                }
                self.set_state(AppState::NewRequestPrompt { prompt });
                Action::Nothing
            },
            Intent::AcceptNewRequest(f) => {
                let again = f.clone();
                Action::Edit { file: Some(f), then: Intent::Update(Some(again)) }
            },
            Intent::ShowError(e) => {
                self.error = Some(e);
                self.state = AppState::Idle;
                Action::Nothing
            },
        }
    }

    /// After the request files were listed anew: lists `requests`, and
    /// shows `selected`.
    pub fn requests_found(&mut self, requests: Vec<String>, selected: Option<String>) -> (res: Intent)
        requires
            old(self).wf(),
        ensures
            final(self).wf(),
            final(self).request_selector.selector.items() == labels_view(requests@),
            final(self).request_selector.selector.cursor() is None,
            final(self).request_selector.selector.search() == old(self).request_selector.selector.search(),
            final(self).state == old(self).state,
            final(self).output_view == old(self).output_view,
            final(self).error == old(self).error,
            final(self).target == old(self).target,
            final(self).should_quit == old(self).should_quit,
            res == Intent::PreviewRequest(selected),
    {
        self.request_selector.populate(requests);
        Intent::PreviewRequest(selected)
    }

    /// After the request file `file_path` was read as `text`: puts the
    /// cursor on it and shows the text.
    pub fn show_preview(&mut self, file_path: String, text: String)
        requires
            old(self).wf(),
        ensures
            final(self).wf(),
            match crate::select::first_row_with(
                old(self).request_selector.selector.items(),
                old(self).request_selector.selector.rows(),
                file_path@,
            ) {
                Some(p) => final(self).request_selector.selector.cursor() == Some(p as usize),
                None => final(self).request_selector.selector.cursor() == old(self).request_selector.selector.cursor(),
            },
            final(self).request_selector.selector.items() == old(self).request_selector.selector.items(),
            final(self).output_view.content == crate::output::Content::Preview(text),
            final(self).output_view.scroll == (0u16, 0u16),
            final(self).output_view.noheaders == old(self).output_view.noheaders,
            final(self).output_view.nowrap == old(self).output_view.nowrap,
            final(self).state is Idle,
            final(self).error is None,
            final(self).target == old(self).target,
            final(self).should_quit == old(self).should_quit,
    {
        self.request_selector.try_select(file_path.as_str());
        self.output_view.show_preview(text);
        self.set_state(AppState::Idle);
    }

    /// After the targets of the configuration were listed: asks which to
    /// use.
    pub fn show_targets(&mut self, targets: Vec<String>)
        requires
            old(self).wf(),
        ensures
            final(self).wf(),
            final(self).state matches AppState::SelectTarget { component } && component.title_text()
                == "Select target"@ && component.prompt_text() == "target"@ && component.items()
                == labels_view(targets@) && component.cursor() == Some(0usize),
            final(self).error is None,
            final(self).request_selector == old(self).request_selector,
            final(self).output_view == old(self).output_view,
            final(self).target == old(self).target,
            final(self).should_quit == old(self).should_quit,
    {
        let component = Select::new(String::from_str("Select target"), String::from_str("target"), targets);
        proof {
            reveal_strlit("Select target");
            reveal_strlit("target");
        }
        self.set_state(AppState::SelectTarget { component });
    }

    /// After the target `target` was stored: uses it.
    pub fn target_saved(&mut self, target: String)
        requires
            old(self).wf(),
        ensures
            final(self).wf(),
            final(self).target == target,
            final(self).state is Idle,
            final(self).error is None,
            final(self).request_selector == old(self).request_selector,
            final(self).output_view == old(self).output_view,
            final(self).should_quit == old(self).should_quit,
    {
        self.target = target;
        self.set_state(AppState::Idle);
    }
}

/// `"{{"`, the name and `"}}"` after `prefix`.
fn braced(prefix: &str, key: &str) -> (res: String)
    ensures
        res@ == prefix@ + "{{"@ + key@ + "}}"@,
{
    let res = String::from_str(prefix).concat("{{").concat(key).concat("}}");
    proof {
        reveal_strlit("{{");
        reveal_strlit("}}");
    }
    res
}

/// The widget that asks for the value of `key`.
pub fn ask_widget(key: &String, params: AskForValueParams, today: CalendarDate) -> (res: ValueWidget)
    ensures
        asks_with(res, key@, params, today),
        res matches ValueWidget::Choose(s, v) ==> !s.multiple() && v@.len() == s.items().len(),
{
    match params {
        AskForValueParams::Select { options } => {
            let title = braced("Select substitution value for ", key.as_str());
            proof {
                reveal_strlit("Select substitution value for ");
            }
            let (labels, values) = split_options(&options);
            let k = key.clone();
            let s = Select::new(title, k, labels);
            proof {
                assert(labels_view(values@).len() == values@.len());
            }
            ValueWidget::Choose(s, values)
        },
        AskForValueParams::Prompt { fallback } => {
            if is_date_key(key.as_str()) {
                let title = braced("Select ", key.as_str());
                proof {
                    reveal_strlit("Select ");
                }
                ValueWidget::Date(DatePicker::new(title, today).with_fallback(fallback))
            } else {
                let title = braced("Enter value for ", key.as_str());
                proof {
                    reveal_strlit("Enter value for ");
                }
                let p = SimplePrompt::new(title);
                assert(p.input() =~= Seq::<char>::empty());
                ValueWidget::Text(p.with_fallback(fallback))
            }
        },
    }
}

/// The labels of a list of options, and beside them the texts they insert.
fn split_options(options: &Vec<(String, String)>) -> (res: (Vec<String>, Vec<String>))
    ensures
        labels_view(res.0@) == options@.map_values(|o: (String, String)| o.0@),
        labels_view(res.1@) == options@.map_values(|o: (String, String)| o.1@),
{
    let mut labels: Vec<String> = Vec::new();
    let mut values: Vec<String> = Vec::new();
    let mut i: usize = 0;
    while i < options.len()
        invariant
            i <= options@.len(),
            labels@.len() == i,
            values@.len() == i,
            forall|j: int| 0 <= j < i ==> (#[trigger] labels@[j])@ == options@[j].0@,
            forall|j: int| 0 <= j < i ==> (#[trigger] values@[j])@ == options@[j].1@,
        decreases options@.len() - i,
    {
        labels.push(options[i].0.clone());
        values.push(options[i].1.clone());
        i = i + 1;
    }
    proof {
        assert(labels_view(labels@) =~= options@.map_values(|o: (String, String)| o.0@));
        assert(labels_view(values@) =~= options@.map_values(|o: (String, String)| o.1@));
    }
    (labels, values)
}

/// Why the screen turned a key away: it would move a cursor over a list
/// with no rows, scroll the output pane past its last row, or move the
/// calendar out of its range.
#[derive(Debug, PartialEq, Eq)]
pub enum KeyRefused {
    NoRows,
    ScrollPastEnd,
    DateOutOfRange,
}

impl App {
    /// Why the screen cannot take the key.
    pub open spec fn refusal(self, event: Event) -> KeyRefused {
        match self.state {
            AppState::Idle => if !self.request_selector.selector.takes(event) {
                KeyRefused::NoRows
            } else {
                KeyRefused::ScrollPastEnd
            },
            AppState::PendingValue { widget: ValueWidget::Date(_), .. } => KeyRefused::DateOutOfRange,
            _ => KeyRefused::NoRows,
        }
    }

    /// Reacts to a key as `handle_event` does, where the screen can take
    /// it; otherwise turns it away, and changes nothing.
    pub fn try_handle_event(&mut self, event: &Event, edited: Option<String>) -> (res: Result<
        Option<Intent>,
        KeyRefused,
    >)
        requires
            old(self).wf(),
        ensures
            final(self).wf(),
            old(self).takes(*event) ==> (res matches Ok(r) && handled(
                *old(self),
                *final(self),
                *event,
                edited,
                r,
            )),
            !old(self).takes(*event) ==> res == Err::<Option<Intent>, KeyRefused>(
                old(self).refusal(*event),
            ) && *final(self) == *old(self),
    {
        let is_press = match event {
            Event::Key(k) => match k.kind {
                KeyEventKind::Press => true,
                _ => false,
            },
            Event::Other => false,
        };
        if is_press {
            let refused = match &self.state {
                AppState::Idle => if !self.request_selector.selector.can_take(event) {
                    Some(KeyRefused::NoRows)
                } else if matches!(mapkey(event), KeyMapping::ScrollDown) && self.output_view.scroll.0
                    > u16::MAX - SCROLL_STEP {
                    Some(KeyRefused::ScrollPastEnd)
                } else {
                    None
                },
                AppState::PendingValue { widget: ValueWidget::Choose(s, _), .. } => if !s.can_take(
                    event,
                ) {
                    Some(KeyRefused::NoRows)
                } else {
                    None
                },
                AppState::PendingValue { widget: ValueWidget::Date(d), .. } => if !d.can_take(event) {
                    Some(KeyRefused::DateOutOfRange)
                } else {
                    None
                },
                AppState::SelectTarget { component } => if !component.can_take(event) {
                    Some(KeyRefused::NoRows)
                } else {
                    None
                },
                _ => None,
            };
            if let Some(r) = refused {
                return Err(r);
            }
        }
        Ok(self.handle_event(event, edited))
    }
}

/// A copy of a list of options.
pub fn clone_options(options: &Vec<(String, String)>) -> (res: Vec<(String, String)>)
    ensures
        options_view(res@) == options_view(options@),
{
    let mut out: Vec<(String, String)> = Vec::new();
    let mut i: usize = 0;
    while i < options.len()
        invariant
            i <= options@.len(),
            out@.len() == i,
            options_view(out@) == options_view(options@).take(i as int),
        decreases options@.len() - i,
    {
        let a = options[i].0.clone();
        let b = options[i].1.clone();
        out.push((a, b));
        proof {
            assert(options_view(out@)[i as int] == options_view(options@)[i as int]);
            assert(options_view(out@) =~= options_view(options@).take(i + 1));
        }
        i = i + 1;
    }
    proof {
        assert(options_view(options@).take(i as int) =~= options_view(options@));
    }
    out
}

} // verus!
