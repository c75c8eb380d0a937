use crate::keymap::{event_meaning, mapkey, Event, KeyMapping};
use crate::request::{request_text, HitmanRequest};
use crate::text::{split_lines, text_lines};
use vstd::prelude::*;
use vstd::string::*;

verus! {

/// A request as sent.
pub struct HttpRequestMessage(pub HitmanRequest);

/// A response: its head (status line and headers) and its body, as text.
pub struct HttpMessage {
    pub header: String,
    pub body: String,
}

/// Where a request stands.
pub enum RequestStatus {
    Running,
    Complete { response: HttpMessage, elapsed_nanos: u64 },
    Failed { error: String },
}

/// A request and where it stands.
pub struct HttpRequestInfo {
    pub request: HttpRequestMessage,
    pub status: RequestStatus,
}

impl HttpRequestInfo {
    pub fn new(request: HttpRequestMessage, status: RequestStatus) -> (res: HttpRequestInfo)
        ensures
            res.request == request,
            res.status == status,
    {
        HttpRequestInfo { request, status }
    }
}

/// What the output pane shows.
pub enum Content {
    Empty,
    Preview(String),
    Request(HttpRequestInfo),
}

/// How a line of the output pane is drawn.
#[derive(Debug, PartialEq, Eq, Clone, Copy)]
pub enum LineStyle {
    /// The terminal's own style.
    Plain,
    /// A line of a request (blue).
    Request,
    /// A line of a response's head (green).
    ResponseHead,
    /// A line of a response's body, to be highlighted as JSON.
    ResponseBody,
    /// A line of an error (yellow).
    Error,
}

/// A line of the output pane.
pub struct StyledLine {
    pub text: String,
    pub style: LineStyle,
}

pub open spec fn styled_view(l: StyledLine) -> (Seq<char>, LineStyle) {
    (l.text@, l.style)
}

/// The pane that shows a request and its response.
pub struct OutputView {
    pub content: Content,
    /// Lines scrolled down, and columns scrolled right.
    pub scroll: (u16, u16),
    pub noheaders: bool,
    pub nowrap: bool,
}

/// How many lines one scroll step moves.
pub const SCROLL_STEP: u16 = 15;

/// The first row shown after scrolling up one step from `n`: never above
/// the top.
pub open spec fn scrolled_up(n: u16) -> u16 {
    if n <= SCROLL_STEP {
        0
    } else {
        (n - SCROLL_STEP) as u16
    }
}

/// The first row shown after scrolling down one step from `n`.
pub open spec fn scrolled_down(n: u16) -> u16 {
    (n + SCROLL_STEP) as u16
}

/// Scrolling up undoes scrolling down.
pub proof fn lemma_scroll_down_then_up(n: u16)
    requires
        n + SCROLL_STEP <= u16::MAX,
    ensures
        scrolled_up(scrolled_down(n)) == n,
{
}

/// The lines, each after `> `, in the request style.
pub open spec fn request_lines(ls: Seq<Seq<char>>) -> Seq<(Seq<char>, LineStyle)> {
    ls.map_values(|l: Seq<char>| ("> "@ + l, LineStyle::Request))
}

/// The lines, in the given style.
pub open spec fn plain_lines(ls: Seq<Seq<char>>, style: LineStyle) -> Seq<(Seq<char>, LineStyle)> {
    ls.map_values(|l: Seq<char>| (l, style))
}

/// The lines of the output pane: the lines of a preview or of a request
/// after `> `; for a request, an empty line unless headers are hidden,
/// then the response's head (its first line alone when headers are
/// hidden) and body, or the error.
pub open spec fn pane_lines(content: Content, noheaders: bool) -> Seq<(Seq<char>, LineStyle)> {
    match content {
        Content::Empty => Seq::empty(),
        Content::Preview(text) => request_lines(text_lines(text@)),
        Content::Request(info) => request_lines(text_lines(request_text(info.request.0))) + (
        if noheaders {
            Seq::empty()
        } else {
            seq![(Seq::<char>::empty(), LineStyle::Plain)]
        }) + match info.status {
            RequestStatus::Running => Seq::empty(),
            RequestStatus::Complete { response, .. } => plain_lines(
                if noheaders {
                    text_lines(response.header@).take(
                        if text_lines(response.header@).len() > 0 {
                            1
                        } else {
                            0
                        },
                    )
                } else {
                    text_lines(response.header@)
                },
                LineStyle::ResponseHead,
            ) + plain_lines(text_lines(response.body@), LineStyle::ResponseBody),
            RequestStatus::Failed { error } => plain_lines(text_lines(error@), LineStyle::Error),
        },
    }
}

/// Appends the lines `ls`, each after `prefix`, in the given style.
fn push_lines(out: &mut Vec<StyledLine>, ls: &Vec<String>, count: usize, prefix: &str, style: LineStyle)
    requires
        count <= ls@.len(),
    ensures
        final(out)@.map_values(|l: StyledLine| styled_view(l)) == old(out)@.map_values(
            |l: StyledLine| styled_view(l),
        ) + ls@.take(count as int).map_values(|l: String| (prefix@ + l@, style)),
{
    let ghost start = out@.map_values(|l: StyledLine| styled_view(l));
    let mut i: usize = 0;
    while i < count
        invariant
            count <= ls@.len(),
            i <= count,
            out@.map_values(|l: StyledLine| styled_view(l)) == start + ls@.take(i as int).map_values(
                |l: String| (prefix@ + l@, style),
            ),
        decreases count - i,
    {
        let ghost before = out@.map_values(|l: StyledLine| styled_view(l));
        out.push(StyledLine { text: String::from_str(prefix).concat(ls[i].as_str()), style });
        proof {
            assert(ls@.take(i + 1).map_values(|l: String| (prefix@ + l@, style)) =~= ls@.take(
                i as int,
            ).map_values(|l: String| (prefix@ + l@, style)).push((prefix@ + ls@[i as int]@, style)));
            assert(out@.map_values(|l: StyledLine| styled_view(l)) =~= before.push(
                (prefix@ + ls@[i as int]@, style),
            ));
        }
        i = i + 1;
    }
}

proof fn lemma_lines_views(ls: Seq<String>, lv: Seq<Seq<char>>, prefix: Seq<char>, style: LineStyle, n: int)
    requires
        lv == ls.map_values(|l: String| l@),
        0 <= n <= ls.len(),
    ensures
        ls.take(n).map_values(|l: String| (prefix + l@, style)) == lv.take(n).map_values(
            |l: Seq<char>| (prefix + l, style),
        ),
{
    assert(ls.take(n).map_values(|l: String| (prefix + l@, style)) =~= lv.take(n).map_values(
        |l: Seq<char>| (prefix + l, style),
    ));
}

impl OutputView {
    /// An empty pane, scrolled to the top, showing headers and wrapping
    /// lines.
    pub fn new() -> (res: OutputView)
        ensures
            res.content is Empty,
            res.scroll == (0u16, 0u16),
            !res.noheaders,
            !res.nowrap,
    {
        OutputView { content: Content::Empty, scroll: (0, 0), noheaders: false, nowrap: false }
    }

    /// Shows the text of a request file, from the top.
    pub fn show_preview(&mut self, text: String)
        ensures
            final(self).content == Content::Preview(text),
            final(self).scroll == (0u16, 0u16),
            final(self).noheaders == old(self).noheaders,
            final(self).nowrap == old(self).nowrap,
    {
        self.scroll = (0, 0);
        self.content = Content::Preview(text);
    }

    /// Shows a request and where it stands, from the top.
    pub fn show_request(&mut self, info: HttpRequestInfo)
        ensures
            final(self).content == Content::Request(info),
            final(self).scroll == (0u16, 0u16),
            final(self).noheaders == old(self).noheaders,
            final(self).nowrap == old(self).nowrap,
    {
        self.scroll = (0, 0);
        self.content = Content::Request(info);
    }

    /// Shows nothing.
    pub fn reset(&mut self)
        ensures
            final(self).content is Empty,
            final(self).scroll == (0u16, 0u16),
            final(self).noheaders == old(self).noheaders,
            final(self).nowrap == old(self).nowrap,
    {
        self.scroll = (0, 0);
        self.content = Content::Empty;
    }

    /// Scrolls up one step, not above the top.
    pub fn scroll_up(&mut self)
        ensures
            final(self).scroll == (scrolled_up(old(self).scroll.0), old(self).scroll.1),
            final(self).content == old(self).content,
            final(self).noheaders == old(self).noheaders,
            final(self).nowrap == old(self).nowrap,
    {
        if self.scroll.0 <= SCROLL_STEP {
            self.scroll.0 = 0;
        } else {
            self.scroll.0 = self.scroll.0 - SCROLL_STEP;
        }
    }

    /// Scrolls down one step.
    pub fn scroll_down(&mut self)
        requires
            old(self).scroll.0 + SCROLL_STEP <= u16::MAX,
        ensures
            final(self).scroll == (scrolled_down(old(self).scroll.0), old(self).scroll.1),
            final(self).content == old(self).content,
            final(self).noheaders == old(self).noheaders,
            final(self).nowrap == old(self).nowrap,
    {
        self.scroll.0 = self.scroll.0 + SCROLL_STEP;
    }

    /// The title of the pane.
    pub fn title(&self) -> (res: &'static str)
        ensures
            res@ == match self.content {
                Content::Empty => ""@,
                Content::Preview(_) => "Preview"@,
                Content::Request(_) => "Output"@,
            },
    {
        match &self.content {
            Content::Empty => "",
            Content::Preview(_) => "Preview",
            Content::Request(_) => "Output",
        }
    }

    /// The modes in force: `H` when headers are shown, `W` when lines
    /// wrap.
    pub fn mode_string(&self) -> (res: String)
        ensures
            res@ == (if !self.noheaders {
                seq!['H']
            } else {
                Seq::empty()
            }) + (if !self.nowrap {
                seq!['W']
            } else {
                Seq::empty()
            }),
    {
        let mut s = String::new();
        if !self.noheaders {
            crate::text::push_char(&mut s, 'H');
        }
        if !self.nowrap {
            crate::text::push_char(&mut s, 'W');
        }
        proof {
            assert(s@ =~= (if !self.noheaders {
                seq!['H']
            } else {
                Seq::empty()
            }) + (if !self.nowrap {
                seq!['W']
            } else {
                Seq::empty()
            }));
        }
        s
    }

    /// The lines the pane shows.
    pub fn make_lines(&self) -> (res: Vec<StyledLine>)
        ensures
            res@.map_values(|l: StyledLine| styled_view(l)) == pane_lines(
                self.content,
                self.noheaders,
            ),
    {
        let mut lines: Vec<StyledLine> = Vec::new();
        proof {
            assert(lines@.map_values(|l: StyledLine| styled_view(l)) =~= Seq::<(Seq<char>, LineStyle)>::empty());
        }
        match &self.content {
            Content::Empty => {},
            Content::Request(info) => {
                let req = split_lines(info.request.0.text().as_str());
                let ghost rv = req@.map_values(|l: String| l@);
                push_lines(&mut lines, &req, req.len(), "> ", LineStyle::Request);
                proof {
                    assert(req@.take(req@.len() as int) =~= req@);
                    lemma_lines_views(req@, rv, "> "@, LineStyle::Request, req@.len() as int);
                    assert(rv.take(rv.len() as int) =~= rv);
                }
                if !self.noheaders {
                    lines.push(StyledLine { text: String::new(), style: LineStyle::Plain });
                }
                let ghost after_request = lines@.map_values(|l: StyledLine| styled_view(l));
                proof {
                    assert(after_request =~= request_lines(text_lines(request_text(info.request.0))) + (
                    if self.noheaders {
                        Seq::empty()
                    } else {
                        seq![(Seq::<char>::empty(), LineStyle::Plain)]
                    }));
                }
                match &info.status {
                    RequestStatus::Running => {
                        proof {
                            assert(lines@.map_values(|l: StyledLine| styled_view(l)) =~= after_request
                                + Seq::<(Seq<char>, LineStyle)>::empty());
                        }
                    },
                    RequestStatus::Complete { response, .. } => {
                        let head = split_lines(response.header.as_str());
                        let ghost hv = head@.map_values(|l: String| l@);
                        let count: usize = if self.noheaders {
                            if head.len() > 0 {
                                1
                            } else {
                                0
                            }
                        } else {
                            head.len()
                        };
                        push_lines(&mut lines, &head, count, "", LineStyle::ResponseHead);
                        let ghost after_head = lines@.map_values(|l: StyledLine| styled_view(l));
                        let body = split_lines(response.body.as_str());
                        let ghost bv = body@.map_values(|l: String| l@);
                        push_lines(&mut lines, &body, body.len(), "", LineStyle::ResponseBody);
                        proof {
                            reveal_strlit("");
                            lemma_lines_views(head@, hv, ""@, LineStyle::ResponseHead, count as int);
                            lemma_lines_views(body@, bv, ""@, LineStyle::ResponseBody, body@.len() as int);
                            assert(hv.take(count as int).map_values(|l: Seq<char>| (""@ + l, LineStyle::ResponseHead))
                                =~= plain_lines(hv.take(count as int), LineStyle::ResponseHead));
                            assert(bv.take(bv.len() as int).map_values(|l: Seq<char>| (""@ + l, LineStyle::ResponseBody))
                                =~= plain_lines(bv, LineStyle::ResponseBody));
                            if !self.noheaders {
                                assert(hv.take(count as int) =~= hv);
                            }
                            assert(lines@.map_values(|l: StyledLine| styled_view(l)) =~= after_request
                                + (plain_lines(
                                if self.noheaders {
                                    hv.take(
                                        if hv.len() > 0 {
                                            1
                                        } else {
                                            0
                                        },
                                    )
                                } else {
                                    hv
                                },
                                LineStyle::ResponseHead,
                            ) + plain_lines(bv, LineStyle::ResponseBody)));
                        }
                    },
                    RequestStatus::Failed { error } => {
                        let err = split_lines(error.as_str());
                        let ghost ev = err@.map_values(|l: String| l@);
                        push_lines(&mut lines, &err, err.len(), "", LineStyle::Error);
                        proof {
                            reveal_strlit("");
                            lemma_lines_views(err@, ev, ""@, LineStyle::Error, err@.len() as int);
                            assert(ev.take(ev.len() as int).map_values(|l: Seq<char>| (""@ + l, LineStyle::Error))
                                =~= plain_lines(ev, LineStyle::Error));
                            assert(lines@.map_values(|l: StyledLine| styled_view(l)) =~= after_request
                                + plain_lines(ev, LineStyle::Error));
                        }
                    },
                }
            },
            Content::Preview(text) => {
                let ls = split_lines(text.as_str());
                let ghost lv = ls@.map_values(|l: String| l@);
                push_lines(&mut lines, &ls, ls.len(), "> ", LineStyle::Request);
                proof {
                    lemma_lines_views(ls@, lv, "> "@, LineStyle::Request, ls@.len() as int);
                    assert(lv.take(lv.len() as int) =~= lv);
                }
            },
        }
        lines
    }

    /// Reacts to a key: scrolls, or toggles wrapping or headers.
    pub fn handle_event(&mut self, event: &Event)
        requires
            event_meaning(*event) == KeyMapping::ScrollDown ==> old(self).scroll.0 + SCROLL_STEP
                <= u16::MAX,
        ensures
            final(self).content == old(self).content,
            final(self).scroll == match event_meaning(*event) {
                KeyMapping::ScrollUp => (scrolled_up(old(self).scroll.0), old(self).scroll.1),
                KeyMapping::ScrollDown => (scrolled_down(old(self).scroll.0), old(self).scroll.1),
                _ => old(self).scroll,
            },
            final(self).nowrap == (old(self).nowrap != (event_meaning(*event)
                == KeyMapping::ToggleWrap)),
            final(self).noheaders == (old(self).noheaders != (event_meaning(*event)
                == KeyMapping::ToggleHeaders)),
    {
        match mapkey(event) {
            KeyMapping::ScrollUp => {
                self.scroll_up();
            },
            KeyMapping::ScrollDown => {
                self.scroll_down();
            },
            KeyMapping::ToggleWrap => {
                self.nowrap = !self.nowrap;
            },
            KeyMapping::ToggleHeaders => {
                self.noheaders = !self.noheaders;
            },
            _ => {},
        }
    }
}

} // verus!
