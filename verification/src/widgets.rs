use crate::keymap::{event_meaning, key_meaning, keymap_list, mapkey, Event, KeyCode, KeyMapping, KeyModifiers};
use vstd::prelude::*;
use vstd::string::*;

verus! {

/// What a prompt gives back.
#[derive(Debug, PartialEq, Eq)]
pub enum PromptIntent {
    Abort,
    Accept(String),
}

/// A prompt for a line of text.
pub struct SimplePrompt {
    title: String,
    input: String,
}

impl SimplePrompt {
    pub closed spec fn title_text(self) -> Seq<char> {
        self.title@
    }

    /// The text typed so far.
    pub closed spec fn input(self) -> Seq<char> {
        self.input@
    }

    /// A prompt with an empty input.
    pub fn new(title: String) -> (res: SimplePrompt)
        ensures
            res.title_text() == title@,
            res.input().len() == 0,
    {
        SimplePrompt { title, input: String::new() }
    }

    /// The prompt with its input filled in with the fallback value, where
    /// there is one.
    pub fn with_fallback(self, fallback: Option<String>) -> (res: SimplePrompt)
        ensures
            res.title_text() == self.title_text(),
            res.input() == match fallback {
                Some(f) => f@,
                None => self.input(),
            },
    {
        match fallback {
            Some(f) => SimplePrompt { title: self.title, input: f },
            None => self,
        }
    }

    /// The title of the prompt.
    pub fn title(&self) -> (res: &str)
        ensures
            res@ == self.title_text(),
    {
        self.title.as_str()
    }

    /// The text typed so far.
    pub fn value(&self) -> (res: String)
        ensures
            res@ == self.input(),
    {
        self.input.clone()
    }

    /// Reacts to a key: enter accepts the text, escape aborts; any other
    /// key goes to the input field, whose text after the key is `edited`
    /// when it changed.
    pub fn handle_prompt(&mut self, event: &Event, edited: Option<String>) -> (res: Option<
        PromptIntent,
    >)
        ensures
            final(self).title_text() == old(self).title_text(),
            match event_meaning(*event) {
                KeyMapping::Accept => final(self).input() == old(self).input() && (res matches Some(
                    PromptIntent::Accept(v),
                ) && v@ == old(self).input()),
                KeyMapping::Abort => final(self).input() == old(self).input() && res == Some(
                    PromptIntent::Abort,
                ),
                _ => res is None && final(self).input() == match edited {
                    Some(v) => v@,
                    None => old(self).input(),
                },
            },
    {
        match mapkey(event) {
            KeyMapping::Accept => {
                return Some(PromptIntent::Accept(self.value()));
            },
            KeyMapping::Abort => {
                return Some(PromptIntent::Abort);
            },
            _ => {},
        }
        if let Some(v) = edited {
            self.input = v;
        }
        None
    }
}

/// The frames of the animation shown while a request runs.
pub open spec fn progress_frames() -> Seq<Seq<char>> {
    seq![
        "===             "@,
        " ===            "@,
        "  ===           "@,
        "   ===          "@,
        "    ===         "@,
        "     ===        "@,
        "      ===       "@,
        "       ===      "@,
        "        ===     "@,
        "         ===    "@,
        "          ===   "@,
        "           ===  "@,
        "            === "@,
        "             ==="@,
        "            === "@,
        "           ===  "@,
        "          ===   "@,
        "         ===    "@,
        "        ===     "@,
        "       ===      "@,
        "      ===       "@,
        "     ===        "@,
        "    ===         "@,
        "   ===          "@,
        "  ===           "@,
        " ===            "@,
    ]
}

/// The animation shown while a request runs.
pub struct Progress;

impl Progress {
    /// The frame shown at a time, in milliseconds: a new frame every 50
    /// milliseconds, the bar going right and back.
    pub fn frame(&self, millis: u128) -> (res: &'static str)
        ensures
            res@ == progress_frames()[((millis / 50) % 26) as int],
    {
        let frames: [&'static str; 26] = [
            "===             ",
            " ===            ",
            "  ===           ",
            "   ===          ",
            "    ===         ",
            "     ===        ",
            "      ===       ",
            "       ===      ",
            "        ===     ",
            "         ===    ",
            "          ===   ",
            "           ===  ",
            "            === ",
            "             ===",
            "            === ",
            "           ===  ",
            "          ===   ",
            "         ===    ",
            "        ===     ",
            "       ===      ",
            "      ===       ",
            "     ===        ",
            "    ===         ",
            "   ===          ",
            "  ===           ",
            " ===            ",
        ];
        let pos = ((millis / 50) % 26) as usize;
        proof {
            assert(frames@.map_values(|f: &str| f@) =~= progress_frames());
            assert(frames@.map_values(|f: &str| f@)[pos as int] == frames@[pos as int]@);
        }
        frames[pos]
    }
}

/// The help screen: the keyboard shortcuts.
pub struct Help;

/// `s` padded with spaces to `width` characters.
pub open spec fn padded(s: Seq<char>, width: nat) -> Seq<char> {
    if s.len() >= width {
        s
    } else {
        s + Seq::new((width - s.len()) as nat, |i: int| ' ')
    }
}

impl Help {
    /// The lines of the help screen: each shortcut's keys, padded to 14
    /// characters, then what it does.
    pub fn lines(&self) -> (res: Vec<String>)
        ensures
            res@.len() == keymap_list_view().len(),
            forall|i: int|
                0 <= i < res@.len() ==> (#[trigger] res@[i])@ == padded(keymap_list_view()[i].0, 14)
                    + " "@ + keymap_list_view()[i].1,
    {
        let list = keymap_list();
        let mut out: Vec<String> = Vec::new();
        let mut i: usize = 0;
        while i < list.len()
            invariant
                list@.map_values(|e: (&str, &str)| (e.0@, e.1@)) == keymap_list_view(),
                i <= list@.len(),
                out@.len() == i,
                forall|j: int|
                    0 <= j < i ==> (#[trigger] out@[j])@ == padded(keymap_list_view()[j].0, 14) + " "@
                        + keymap_list_view()[j].1,
            decreases list@.len() - i,
        {
            let (keys, action) = list[i];
            proof {
                assert(keymap_list_view()[i as int] == (keys@, action@));
            }
            let mut line = keys.to_owned();
            let n = keys.unicode_len();
            let mut k: usize = n;
            while k < 14
                invariant
                    n == keys@.len(),
                    n <= k <= 14 || (n > 14 && k == n),
                    line@ == keys@ + Seq::new((k - n) as nat, |x: int| ' '),
                decreases 14 - k,
            {
                crate::text::push_char(&mut line, ' ');
                proof {
                    assert(line@ =~= keys@ + Seq::new((k + 1 - n) as nat, |x: int| ' '));
                }
                k = k + 1;
            }
            proof {
                if n >= 14 {
                    assert(line@ =~= keys@);
                } else {
                    assert(line@ =~= padded(keys@, 14));
                }
            }
            out.push(line.concat(" ").concat(action));
            i = i + 1;
        }
        out
    }
}

/// The keyboard shortcuts, keys and actions.
pub open spec fn keymap_list_view() -> Seq<(Seq<char>, Seq<char>)> {
    seq![
        ("<C-j> or <C-n>"@, "Select next"@),
        ("<C-k> or <C-p>"@, "Select previous"@),
        ("<C-u>"@, "Scroll up"@),
        ("<C-d>"@, "Scroll down"@),
        ("<C-s>"@, "Select target"@),
        ("<C-r>"@, "Re-scan folder"@),
        ("<C-e>"@, "Edit selected request"@),
        ("<C-a>"@, "New request"@),
        ("<Esc> or <C-c>"@, "Abort"@),
        ("<C-space>"@, "Toggle request headers"@),
        (","@, "Toggle output wrapping"@),
        ("?"@, "Toggle this help message"@),
        ("<"@, "Increase output width"@),
        (">"@, "Decrease output width"@),
    ]
}

/// The action a description of the help screen names.
pub open spec fn described(desc: Seq<char>) -> KeyMapping {
    if desc == "Select next"@ {
        KeyMapping::Down
    } else if desc == "Select previous"@ {
        KeyMapping::Up
    } else if desc == "Scroll up"@ {
        KeyMapping::ScrollUp
    } else if desc == "Scroll down"@ {
        KeyMapping::ScrollDown
    } else if desc == "Select target"@ {
        KeyMapping::SelectTarget
    } else if desc == "Re-scan folder"@ {
        KeyMapping::Reload
    } else if desc == "Edit selected request"@ {
        KeyMapping::Editor
    } else if desc == "New request"@ {
        KeyMapping::New
    } else if desc == "Abort"@ {
        KeyMapping::Abort
    } else if desc == "Toggle request headers"@ {
        KeyMapping::ToggleHeaders
    } else if desc == "Toggle output wrapping"@ {
        KeyMapping::ToggleWrap
    } else if desc == "Toggle this help message"@ {
        KeyMapping::ToggleHelp
    } else if desc == "Increase output width"@ {
        KeyMapping::IncreaseWidth
    } else if desc == "Decrease output width"@ {
        KeyMapping::DecreaseWitdh
    } else {
        KeyMapping::Unmapped
    }
}

/// The key a chord of the help screen names: `<C-x>` (control and the
/// character), `<C-space>`, `<Esc>`, or a single character alone.
pub open spec fn named_chord(t: Seq<char>) -> Option<(KeyModifiers, KeyCode)> {
    let none = KeyModifiers {
        shift: false,
        control: false,
        alt: false,
        super_key: false,
        hyper: false,
        meta: false,
    };
    let control = KeyModifiers { control: true, ..none };
    if t == "<Esc>"@ {
        Some((none, KeyCode::Esc))
    } else if t == "<C-space>"@ {
        Some((control, KeyCode::Char(' ')))
    } else if t.len() == 5 && t[0] == '<' && t[1] == 'C' && t[2] == '-' && t[4] == '>' {
        Some((control, KeyCode::Char(t[3])))
    } else if t.len() == 1 {
        Some((none, KeyCode::Char(t[0])))
    } else {
        None
    }
}

/// The chord written `t`, pressed, means `m`.
pub open spec fn chord_means(t: Seq<char>, m: KeyMapping) -> bool {
    named_chord(t) matches Some((mods, code)) && key_meaning(mods, code) == m
}

/// Each chord written in `keys` (one chord, or two joined by ` or `),
/// pressed, means `m`.
pub open spec fn chords_mean(keys: Seq<char>, m: KeyMapping) -> bool {
    chord_means(keys, m) || exists|a: Seq<char>, b: Seq<char>|
        keys == a + " or "@ + b && chord_means(a, m) && chord_means(b, m)
}

proof fn lemma_help_select_next()
    ensures
        chords_mean("<C-j> or <C-n>"@, described("Select next"@)),
{
    reveal_strlit(" or ");
    reveal_strlit("<C-j>");
    reveal_strlit("<C-j> or <C-n>");
    reveal_strlit("<C-n>");
    reveal_strlit("<C-space>");
    reveal_strlit("<Esc>");
    reveal_strlit("Select next");
    assert(
        "<C-j>"@[1] != "<Esc>"@[1]
            && "<C-j>"@[3] != "<C-space>"@[3]
            && "<C-n>"@[1] != "<Esc>"@[1]
            && "<C-n>"@[3] != "<C-space>"@[3]
    );
    assert(described("Select next"@) == KeyMapping::Down);
    assert(chord_means("<C-j>"@, KeyMapping::Down));
    assert(chord_means("<C-n>"@, KeyMapping::Down));
    assert("<C-j> or <C-n>"@ =~= "<C-j>"@ + " or "@ + "<C-n>"@);
}

proof fn lemma_help_select_previous()
    ensures
        chords_mean("<C-k> or <C-p>"@, described("Select previous"@)),
{
    reveal_strlit(" or ");
    reveal_strlit("<C-k>");
    reveal_strlit("<C-k> or <C-p>");
    reveal_strlit("<C-p>");
    reveal_strlit("<C-space>");
    reveal_strlit("<Esc>");
    reveal_strlit("Select next");
    reveal_strlit("Select previous");
    assert(
        "Select previous"@[7] != "Select next"@[7]
            && "<C-k>"@[1] != "<Esc>"@[1]
            && "<C-k>"@[3] != "<C-space>"@[3]
            && "<C-p>"@[1] != "<Esc>"@[1]
            && "<C-p>"@[3] != "<C-space>"@[3]
    );
    assert(described("Select previous"@) == KeyMapping::Up);
    assert(chord_means("<C-k>"@, KeyMapping::Up));
    assert(chord_means("<C-p>"@, KeyMapping::Up));
    assert("<C-k> or <C-p>"@ =~= "<C-k>"@ + " or "@ + "<C-p>"@);
}

proof fn lemma_help_scroll_up()
    ensures
        chords_mean("<C-u>"@, described("Scroll up"@)),
{
    reveal_strlit("<C-space>");
    reveal_strlit("<C-u>");
    reveal_strlit("<Esc>");
    reveal_strlit("Scroll up");
    reveal_strlit("Select next");
    reveal_strlit("Select previous");
    assert(
        "Scroll up"@[1] != "Select next"@[1]
            && "Scroll up"@[1] != "Select previous"@[1]
            && "<C-u>"@[1] != "<Esc>"@[1]
            && "<C-u>"@[3] != "<C-space>"@[3]
    );
    assert(described("Scroll up"@) == KeyMapping::ScrollUp);
    assert(chord_means("<C-u>"@, KeyMapping::ScrollUp));
}

proof fn lemma_help_scroll_down()
    ensures
        chords_mean("<C-d>"@, described("Scroll down"@)),
{
    reveal_strlit("<C-d>");
    reveal_strlit("<C-space>");
    reveal_strlit("<Esc>");
    reveal_strlit("Scroll down");
    reveal_strlit("Scroll up");
    reveal_strlit("Select next");
    reveal_strlit("Select previous");
    assert(
        "Scroll down"@[1] != "Select next"@[1]
            && "Scroll down"@[1] != "Select previous"@[1]
            && "Scroll down"@[7] != "Scroll up"@[7]
            && "<C-d>"@[1] != "<Esc>"@[1]
            && "<C-d>"@[3] != "<C-space>"@[3]
    );
    assert(described("Scroll down"@) == KeyMapping::ScrollDown);
    assert(chord_means("<C-d>"@, KeyMapping::ScrollDown));
}

proof fn lemma_help_select_target()
    ensures
        chords_mean("<C-s>"@, described("Select target"@)),
{
    reveal_strlit("<C-s>");
    reveal_strlit("<C-space>");
    reveal_strlit("<Esc>");
    reveal_strlit("Scroll down");
    reveal_strlit("Scroll up");
    reveal_strlit("Select next");
    reveal_strlit("Select previous");
    reveal_strlit("Select target");
    assert(
        "Select target"@[7] != "Select next"@[7]
            && "Select target"@[7] != "Select previous"@[7]
            && "Select target"@[1] != "Scroll up"@[1]
            && "Select target"@[1] != "Scroll down"@[1]
            && "<C-s>"@[1] != "<Esc>"@[1]
            && "<C-s>"@[4] != "<C-space>"@[4]
    );
    assert(described("Select target"@) == KeyMapping::SelectTarget);
    assert(chord_means("<C-s>"@, KeyMapping::SelectTarget));
}

proof fn lemma_help_re_scan_folder()
    ensures
        chords_mean("<C-r>"@, described("Re-scan folder"@)),
{
    reveal_strlit("<C-r>");
    reveal_strlit("<C-space>");
    reveal_strlit("<Esc>");
    reveal_strlit("Re-scan folder");
    reveal_strlit("Scroll down");
    reveal_strlit("Scroll up");
    reveal_strlit("Select next");
    reveal_strlit("Select previous");
    reveal_strlit("Select target");
    assert(
        "Re-scan folder"@[0] != "Select next"@[0]
            && "Re-scan folder"@[0] != "Select previous"@[0]
            && "Re-scan folder"@[0] != "Scroll up"@[0]
            && "Re-scan folder"@[0] != "Scroll down"@[0]
            && "Re-scan folder"@[0] != "Select target"@[0]
            && "<C-r>"@[1] != "<Esc>"@[1]
            && "<C-r>"@[3] != "<C-space>"@[3]
    );
    assert(described("Re-scan folder"@) == KeyMapping::Reload);
    assert(chord_means("<C-r>"@, KeyMapping::Reload));
}

proof fn lemma_help_edit_selected_request()
    ensures
        chords_mean("<C-e>"@, described("Edit selected request"@)),
{
    reveal_strlit("<C-e>");
    reveal_strlit("<C-space>");
    reveal_strlit("<Esc>");
    reveal_strlit("Edit selected request");
    reveal_strlit("Re-scan folder");
    reveal_strlit("Scroll down");
    reveal_strlit("Scroll up");
    reveal_strlit("Select next");
    reveal_strlit("Select previous");
    reveal_strlit("Select target");
    assert(
        "Edit selected request"@[0] != "Select next"@[0]
            && "Edit selected request"@[0] != "Select previous"@[0]
            && "Edit selected request"@[0] != "Scroll up"@[0]
            && "Edit selected request"@[0] != "Scroll down"@[0]
            && "Edit selected request"@[0] != "Select target"@[0]
            && "Edit selected request"@[0] != "Re-scan folder"@[0]
            && "<C-e>"@[1] != "<Esc>"@[1]
            && "<C-e>"@[3] != "<C-space>"@[3]
    );
    assert(described("Edit selected request"@) == KeyMapping::Editor);
    assert(chord_means("<C-e>"@, KeyMapping::Editor));
}

proof fn lemma_help_new_request()
    ensures
        chords_mean("<C-a>"@, described("New request"@)),
{
    reveal_strlit("<C-a>");
    reveal_strlit("<C-space>");
    reveal_strlit("<Esc>");
    reveal_strlit("Edit selected request");
    reveal_strlit("New request");
    reveal_strlit("Re-scan folder");
    reveal_strlit("Scroll down");
    reveal_strlit("Scroll up");
    reveal_strlit("Select next");
    reveal_strlit("Select previous");
    reveal_strlit("Select target");
    assert(
        "New request"@[0] != "Select next"@[0]
            && "New request"@[0] != "Select previous"@[0]
            && "New request"@[0] != "Scroll up"@[0]
            && "New request"@[0] != "Scroll down"@[0]
            && "New request"@[0] != "Select target"@[0]
            && "New request"@[0] != "Re-scan folder"@[0]
            && "New request"@[0] != "Edit selected request"@[0]
            && "<C-a>"@[1] != "<Esc>"@[1]
            && "<C-a>"@[3] != "<C-space>"@[3]
    );
    assert(described("New request"@) == KeyMapping::New);
    assert(chord_means("<C-a>"@, KeyMapping::New));
}

proof fn lemma_help_abort()
    ensures
        chords_mean("<Esc> or <C-c>"@, described("Abort"@)),
{
    reveal_strlit(" or ");
    reveal_strlit("<C-c>");
    reveal_strlit("<C-space>");
    reveal_strlit("<Esc>");
    reveal_strlit("<Esc> or <C-c>");
    reveal_strlit("Abort");
    reveal_strlit("Edit selected request");
    reveal_strlit("New request");
    reveal_strlit("Re-scan folder");
    reveal_strlit("Scroll down");
    reveal_strlit("Scroll up");
    reveal_strlit("Select next");
    reveal_strlit("Select previous");
    reveal_strlit("Select target");
    assert(
        "Abort"@[0] != "Select next"@[0]
            && "Abort"@[0] != "Select previous"@[0]
            && "Abort"@[0] != "Scroll up"@[0]
            && "Abort"@[0] != "Scroll down"@[0]
            && "Abort"@[0] != "Select target"@[0]
            && "Abort"@[0] != "Re-scan folder"@[0]
            && "Abort"@[0] != "Edit selected request"@[0]
            && "Abort"@[0] != "New request"@[0]
            && "<Esc>"@[1] != "<C-space>"@[1]
            && "<C-c>"@[1] != "<Esc>"@[1]
            && "<C-c>"@[3] != "<C-space>"@[3]
    );
    assert(described("Abort"@) == KeyMapping::Abort);
    assert(chord_means("<Esc>"@, KeyMapping::Abort));
    assert(chord_means("<C-c>"@, KeyMapping::Abort));
    assert("<Esc> or <C-c>"@ =~= "<Esc>"@ + " or "@ + "<C-c>"@);
}

proof fn lemma_help_toggle_request_headers()
    ensures
        chords_mean("<C-space>"@, described("Toggle request headers"@)),
{
    reveal_strlit("<C-space>");
    reveal_strlit("<Esc>");
    reveal_strlit("Abort");
    reveal_strlit("Edit selected request");
    reveal_strlit("New request");
    reveal_strlit("Re-scan folder");
    reveal_strlit("Scroll down");
    reveal_strlit("Scroll up");
    reveal_strlit("Select next");
    reveal_strlit("Select previous");
    reveal_strlit("Select target");
    reveal_strlit("Toggle request headers");
    assert(
        "Toggle request headers"@[0] != "Select next"@[0]
            && "Toggle request headers"@[0] != "Select previous"@[0]
            && "Toggle request headers"@[0] != "Scroll up"@[0]
            && "Toggle request headers"@[0] != "Scroll down"@[0]
            && "Toggle request headers"@[0] != "Select target"@[0]
            && "Toggle request headers"@[0] != "Re-scan folder"@[0]
            && "Toggle request headers"@[0] != "Edit selected request"@[0]
            && "Toggle request headers"@[0] != "New request"@[0]
            && "Toggle request headers"@[0] != "Abort"@[0]
            && "<C-space>"@[1] != "<Esc>"@[1]
    );
    assert(described("Toggle request headers"@) == KeyMapping::ToggleHeaders);
    assert(chord_means("<C-space>"@, KeyMapping::ToggleHeaders));
}

proof fn lemma_help_toggle_output_wrapping()
    ensures
        chords_mean(","@, described("Toggle output wrapping"@)),
{
    reveal_strlit(",");
    reveal_strlit("<C-space>");
    reveal_strlit("<Esc>");
    reveal_strlit("Abort");
    reveal_strlit("Edit selected request");
    reveal_strlit("New request");
    reveal_strlit("Re-scan folder");
    reveal_strlit("Scroll down");
    reveal_strlit("Scroll up");
    reveal_strlit("Select next");
    reveal_strlit("Select previous");
    reveal_strlit("Select target");
    reveal_strlit("Toggle output wrapping");
    reveal_strlit("Toggle request headers");
    assert(
        "Toggle output wrapping"@[0] != "Select next"@[0]
            && "Toggle output wrapping"@[0] != "Select previous"@[0]
            && "Toggle output wrapping"@[0] != "Scroll up"@[0]
            && "Toggle output wrapping"@[0] != "Scroll down"@[0]
            && "Toggle output wrapping"@[0] != "Select target"@[0]
            && "Toggle output wrapping"@[0] != "Re-scan folder"@[0]
            && "Toggle output wrapping"@[0] != "Edit selected request"@[0]
            && "Toggle output wrapping"@[0] != "New request"@[0]
            && "Toggle output wrapping"@[0] != "Abort"@[0]
            && "Toggle output wrapping"@[7] != "Toggle request headers"@[7]
            && ","@[0] != "<Esc>"@[0]
            && ","@[0] != "<C-space>"@[0]
    );
    assert(described("Toggle output wrapping"@) == KeyMapping::ToggleWrap);
    assert(chord_means(","@, KeyMapping::ToggleWrap));
}

proof fn lemma_help_toggle_this_help_message()
    ensures
        chords_mean("?"@, described("Toggle this help message"@)),
{
    reveal_strlit("<C-space>");
    reveal_strlit("<Esc>");
    reveal_strlit("?");
    reveal_strlit("Abort");
    reveal_strlit("Edit selected request");
    reveal_strlit("New request");
    reveal_strlit("Re-scan folder");
    reveal_strlit("Scroll down");
    reveal_strlit("Scroll up");
    reveal_strlit("Select next");
    reveal_strlit("Select previous");
    reveal_strlit("Select target");
    reveal_strlit("Toggle output wrapping");
    reveal_strlit("Toggle request headers");
    reveal_strlit("Toggle this help message");
    assert(
        "Toggle this help message"@[0] != "Select next"@[0]
            && "Toggle this help message"@[0] != "Select previous"@[0]
            && "Toggle this help message"@[0] != "Scroll up"@[0]
            && "Toggle this help message"@[0] != "Scroll down"@[0]
            && "Toggle this help message"@[0] != "Select target"@[0]
            && "Toggle this help message"@[0] != "Re-scan folder"@[0]
            && "Toggle this help message"@[0] != "Edit selected request"@[0]
            && "Toggle this help message"@[0] != "New request"@[0]
            && "Toggle this help message"@[0] != "Abort"@[0]
            && "Toggle this help message"@[7] != "Toggle request headers"@[7]
            && "Toggle this help message"@[7] != "Toggle output wrapping"@[7]
            && "?"@[0] != "<Esc>"@[0]
            && "?"@[0] != "<C-space>"@[0]
    );
    assert(described("Toggle this help message"@) == KeyMapping::ToggleHelp);
    assert(chord_means("?"@, KeyMapping::ToggleHelp));
}

proof fn lemma_help_increase_output_width()
    ensures
        chords_mean("<"@, described("Increase output width"@)),
{
    reveal_strlit("<");
    reveal_strlit("<C-space>");
    reveal_strlit("<Esc>");
    reveal_strlit("Abort");
    reveal_strlit("Edit selected request");
    reveal_strlit("Increase output width");
    reveal_strlit("New request");
    reveal_strlit("Re-scan folder");
    reveal_strlit("Scroll down");
    reveal_strlit("Scroll up");
    reveal_strlit("Select next");
    reveal_strlit("Select previous");
    reveal_strlit("Select target");
    reveal_strlit("Toggle output wrapping");
    reveal_strlit("Toggle request headers");
    reveal_strlit("Toggle this help message");
    assert(
        "Increase output width"@[0] != "Select next"@[0]
            && "Increase output width"@[0] != "Select previous"@[0]
            && "Increase output width"@[0] != "Scroll up"@[0]
            && "Increase output width"@[0] != "Scroll down"@[0]
            && "Increase output width"@[0] != "Select target"@[0]
            && "Increase output width"@[0] != "Re-scan folder"@[0]
            && "Increase output width"@[0] != "Edit selected request"@[0]
            && "Increase output width"@[0] != "New request"@[0]
            && "Increase output width"@[0] != "Abort"@[0]
            && "Increase output width"@[0] != "Toggle request headers"@[0]
            && "Increase output width"@[0] != "Toggle output wrapping"@[0]
            && "Increase output width"@[0] != "Toggle this help message"@[0]
            && "<"@.len() != "<Esc>"@.len()
            && "<"@.len() != "<C-space>"@.len()
    );
    assert(described("Increase output width"@) == KeyMapping::IncreaseWidth);
    assert(chord_means("<"@, KeyMapping::IncreaseWidth));
}

proof fn lemma_help_decrease_output_width()
    ensures
        chords_mean(">"@, described("Decrease output width"@)),
{
    reveal_strlit("<C-space>");
    reveal_strlit("<Esc>");
    reveal_strlit(">");
    reveal_strlit("Abort");
    reveal_strlit("Decrease output width");
    reveal_strlit("Edit selected request");
    reveal_strlit("Increase output width");
    reveal_strlit("New request");
    reveal_strlit("Re-scan folder");
    reveal_strlit("Scroll down");
    reveal_strlit("Scroll up");
    reveal_strlit("Select next");
    reveal_strlit("Select previous");
    reveal_strlit("Select target");
    reveal_strlit("Toggle output wrapping");
    reveal_strlit("Toggle request headers");
    reveal_strlit("Toggle this help message");
    assert(
        "Decrease output width"@[0] != "Select next"@[0]
            && "Decrease output width"@[0] != "Select previous"@[0]
            && "Decrease output width"@[0] != "Scroll up"@[0]
            && "Decrease output width"@[0] != "Scroll down"@[0]
            && "Decrease output width"@[0] != "Select target"@[0]
            && "Decrease output width"@[0] != "Re-scan folder"@[0]
            && "Decrease output width"@[0] != "Edit selected request"@[0]
            && "Decrease output width"@[0] != "New request"@[0]
            && "Decrease output width"@[0] != "Abort"@[0]
            && "Decrease output width"@[0] != "Toggle request headers"@[0]
            && "Decrease output width"@[0] != "Toggle output wrapping"@[0]
            && "Decrease output width"@[0] != "Toggle this help message"@[0]
            && "Decrease output width"@[0] != "Increase output width"@[0]
            && ">"@[0] != "<Esc>"@[0]
            && ">"@[0] != "<C-space>"@[0]
    );
    assert(described("Decrease output width"@) == KeyMapping::DecreaseWitdh);
    assert(chord_means(">"@, KeyMapping::DecreaseWitdh));
}

/// The help screen tells the truth: every key chord it lists, pressed,
/// means the action its description names.
pub proof fn lemma_help_matches_keys()
    ensures
        forall|i: int|
            0 <= i < keymap_list_view().len() ==> chords_mean(
                #[trigger] keymap_list_view()[i].0,
                described(keymap_list_view()[i].1),
            ),
{
    let l = keymap_list_view();
    lemma_help_select_next();
    assert(l[0] == ("<C-j> or <C-n>"@, "Select next"@));
    lemma_help_select_previous();
    assert(l[1] == ("<C-k> or <C-p>"@, "Select previous"@));
    lemma_help_scroll_up();
    assert(l[2] == ("<C-u>"@, "Scroll up"@));
    lemma_help_scroll_down();
    assert(l[3] == ("<C-d>"@, "Scroll down"@));
    lemma_help_select_target();
    assert(l[4] == ("<C-s>"@, "Select target"@));
    lemma_help_re_scan_folder();
    assert(l[5] == ("<C-r>"@, "Re-scan folder"@));
    lemma_help_edit_selected_request();
    assert(l[6] == ("<C-e>"@, "Edit selected request"@));
    lemma_help_new_request();
    assert(l[7] == ("<C-a>"@, "New request"@));
    lemma_help_abort();
    assert(l[8] == ("<Esc> or <C-c>"@, "Abort"@));
    lemma_help_toggle_request_headers();
    assert(l[9] == ("<C-space>"@, "Toggle request headers"@));
    lemma_help_toggle_output_wrapping();
    assert(l[10] == (","@, "Toggle output wrapping"@));
    lemma_help_toggle_this_help_message();
    assert(l[11] == ("?"@, "Toggle this help message"@));
    lemma_help_increase_output_width();
    assert(l[12] == ("<"@, "Increase output width"@));
    lemma_help_decrease_output_width();
    assert(l[13] == (">"@, "Decrease output width"@));
    assert forall|i: int| 0 <= i < l.len() implies chords_mean(
        #[trigger] l[i].0,
        described(l[i].1),
    ) by {
        assert(0 <= i < 14);
    }
}

} // verus!
