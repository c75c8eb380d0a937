use crate::keymap::{event_meaning, mapkey, Event, KeyMapping};
use crate::prompt::{skim_fuzzy, skim_match};
use crate::value::{compare_keys, KeyOrder};
use vstd::prelude::*;
use vstd::string::*;

verus! {

/// An item that can be listed: the text it is listed by.
pub trait SelectItem {
    fn text(&self) -> String;
}

impl SelectItem for String {
    fn text(&self) -> (res: String)
        ensures
            res@ == self@,
    {
        self.clone()
    }
}

/// The labels of a list of items.
pub open spec fn labels_view(items: Seq<String>) -> Seq<Seq<char>> {
    items.map_values(|s: String| s@)
}

/// The fuzzy score of the item at `i` for the search text.
pub open spec fn score_of(labels: Seq<Seq<char>>, term: Seq<char>, i: int) -> i64 {
    match skim_match(labels[i], term) {
        Some((s, _)) => s,
        None => 0,
    }
}

/// Where the item `x` goes in the ranking `s`: after every item that
/// scores at least as high.
pub open spec fn insert_pos(labels: Seq<Seq<char>>, term: Seq<char>, s: Seq<usize>, x: usize) -> int
    decreases s.len(),
{
    if s.len() == 0 {
        0
    } else if score_of(labels, term, s[0] as int) < score_of(labels, term, x as int) {
        0
    } else {
        1 + insert_pos(labels, term, s.drop_first(), x)
    }
}

/// The positions of the first `n` items that match the search text, by
/// descending score, items of equal score in list order.
pub open spec fn ranked(labels: Seq<Seq<char>>, term: Seq<char>, n: nat) -> Seq<usize>
    decreases n,
{
    if n == 0 {
        Seq::empty()
    } else {
        let r = ranked(labels, term, (n - 1) as nat);
        if skim_match(labels[n - 1], term) is Some {
            r.insert(insert_pos(labels, term, r, (n - 1) as usize), (n - 1) as usize)
        } else {
            r
        }
    }
}

/// The positions of the items listed for a search text: all, in order,
/// for an empty search; else the matching ones, best first.
pub open spec fn filtered_spec(labels: Seq<Seq<char>>, term: Seq<char>) -> Seq<usize> {
    if term.len() == 0 {
        Seq::new(labels.len(), |i: int| i as usize)
    } else {
        ranked(labels, term, labels.len())
    }
}

proof fn lemma_insert_pos(labels: Seq<Seq<char>>, term: Seq<char>, s: Seq<usize>, x: usize, j: int)
    requires
        0 <= j <= s.len(),
        forall|k: int|
            0 <= k < j ==> !(score_of(labels, term, #[trigger] s[k] as int) < score_of(
                labels,
                term,
                x as int,
            )),
        j < s.len() ==> score_of(labels, term, s[j] as int) < score_of(labels, term, x as int),
    ensures
        insert_pos(labels, term, s, x) == j,
    decreases s.len(),
{
    if s.len() > 0 && j > 0 {
        let r = s.drop_first();
        assert forall|k: int|
            0 <= k < j - 1 implies !(score_of(labels, term, #[trigger] r[k] as int) < score_of(
                labels,
                term,
                x as int,
            )) by {
            assert(r[k] == s[k + 1]);
        }
        assert(!(score_of(labels, term, s[0] as int) < score_of(labels, term, x as int)));
        if j < s.len() {
            assert(r[j - 1] == s[j]);
        }
        lemma_insert_pos(labels, term, r, x, j - 1);
    }
}

/// Where `insert_pos` puts `x`: after every item scoring at least as high,
/// before the first that scores lower.
proof fn lemma_insert_pos_place(labels: Seq<Seq<char>>, term: Seq<char>, s: Seq<usize>, x: usize)
    ensures
        0 <= insert_pos(labels, term, s, x) <= s.len(),
        forall|k: int|
            0 <= k < insert_pos(labels, term, s, x) ==> score_of(labels, term, x as int) <= score_of(
                labels,
                term,
                #[trigger] s[k] as int,
            ),
        insert_pos(labels, term, s, x) < s.len() ==> score_of(
            labels,
            term,
            s[insert_pos(labels, term, s, x)] as int,
        ) < score_of(labels, term, x as int),
    decreases s.len(),
{
    if s.len() > 0 && !(score_of(labels, term, s[0] as int) < score_of(labels, term, x as int)) {
        let r = s.drop_first();
        lemma_insert_pos_place(labels, term, r, x);
        let p = insert_pos(labels, term, s, x);
        assert forall|k: int| 0 <= k < p implies score_of(labels, term, x as int) <= score_of(
            labels,
            term,
            #[trigger] s[k] as int,
        ) by {
            if k > 0 {
                assert(s[k] == r[k - 1]);
            }
        }
        if p < s.len() {
            assert(s[p] == r[p - 1]);
        }
    }
}

/// The ranking of the first `n` items lists better matches first, items
/// of equal score in list order, and holds only those items.
proof fn lemma_ranked_best_first(labels: Seq<Seq<char>>, term: Seq<char>, n: nat)
    requires
        n <= labels.len(),
        labels.len() <= usize::MAX,
    ensures
        forall|k: int| 0 <= k < ranked(labels, term, n).len() ==> #[trigger] ranked(labels, term, n)[k] < n,
        forall|a: int, b: int|
            0 <= a < b < ranked(labels, term, n).len() ==> score_of(
                labels,
                term,
                #[trigger] ranked(labels, term, n)[a] as int,
            ) > score_of(labels, term, #[trigger] ranked(labels, term, n)[b] as int) || (score_of(
                labels,
                term,
                ranked(labels, term, n)[a] as int,
            ) == score_of(labels, term, ranked(labels, term, n)[b] as int) && ranked(
                labels,
                term,
                n,
            )[a] < ranked(labels, term, n)[b]),
    decreases n,
{
    if n > 0 {
        lemma_ranked_best_first(labels, term, (n - 1) as nat);
        let r = ranked(labels, term, (n - 1) as nat);
        let x = (n - 1) as usize;
        if skim_match(labels[n - 1], term) is Some {
            lemma_insert_pos_place(labels, term, r, x);
            let p = insert_pos(labels, term, r, x);
            let t = r.insert(p, x);
            assert(t == ranked(labels, term, n));
            assert forall|k: int| 0 <= k < t.len() implies #[trigger] t[k] < n by {
                if k < p {
                    assert(t[k] == r[k]);
                } else if k > p {
                    assert(t[k] == r[k - 1]);
                }
            }
            assert forall|a: int, b: int| 0 <= a < b < t.len() implies score_of(
                labels,
                term,
                #[trigger] t[a] as int,
            ) > score_of(labels, term, #[trigger] t[b] as int) || (score_of(labels, term, t[a] as int)
                == score_of(labels, term, t[b] as int) && t[a] < t[b]) by {
                let sx = score_of(labels, term, x as int);
                if b < p {
                    assert(t[a] == r[a] && t[b] == r[b]);
                    assert(score_of(labels, term, r[a] as int) > score_of(labels, term, r[b] as int) || (
                    score_of(labels, term, r[a] as int) == score_of(labels, term, r[b] as int) && r[a]
                        < r[b]));
                } else if b == p {
                    assert(t[a] == r[a] && t[b] == x);
                    assert(sx <= score_of(labels, term, r[a] as int));
                    assert(r[a] < n - 1);
                } else if a < p {
                    assert(t[a] == r[a] && t[b] == r[b - 1]);
                    assert(sx <= score_of(labels, term, r[a] as int));
                    assert(score_of(labels, term, r[p] as int) < score_of(labels, term, x as int));
                    if p < b - 1 {
                        assert(score_of(labels, term, r[p] as int) >= score_of(
                            labels,
                            term,
                            r[b - 1] as int,
                        ));
                    }
                } else if a == p {
                    assert(t[a] == x && t[b] == r[b - 1]);
                    assert(score_of(labels, term, r[p] as int) < score_of(labels, term, x as int));
                    if p < b - 1 {
                        assert(score_of(labels, term, r[p] as int) >= score_of(
                            labels,
                            term,
                            r[b - 1] as int,
                        ));
                    }
                } else {
                    assert(t[a] == r[a - 1] && t[b] == r[b - 1]);
                    assert(score_of(labels, term, r[a - 1] as int) > score_of(labels, term, r[b - 1] as int)
                        || (score_of(labels, term, r[a - 1] as int) == score_of(labels, term, r[b - 1] as int)
                        && r[a - 1] < r[b - 1]));
                }
            }
        }
    }
}

/// The ranking of the first `n` items holds exactly those that match.
proof fn lemma_ranked_matches(labels: Seq<Seq<char>>, term: Seq<char>, n: nat)
    requires
        n <= labels.len(),
        labels.len() <= usize::MAX,
    ensures
        forall|i: int|
            0 <= i < n ==> (ranked(labels, term, n).contains(i as usize) <==> #[trigger] skim_match(
                labels[i],
                term,
            ) is Some),
    decreases n,
{
    if n > 0 {
        lemma_ranked_matches(labels, term, (n - 1) as nat);
        lemma_ranked_best_first(labels, term, (n - 1) as nat);
        let r = ranked(labels, term, (n - 1) as nat);
        let x = (n - 1) as usize;
        if skim_match(labels[n - 1], term) is Some {
            lemma_insert_pos_place(labels, term, r, x);
            let p = insert_pos(labels, term, r, x);
            let t = r.insert(p, x);
            assert(t == ranked(labels, term, n));
            assert forall|i: int| 0 <= i < n implies (t.contains(i as usize) <==> #[trigger] skim_match(
                labels[i],
                term,
            ) is Some) by {
                if i < n - 1 {
                    if r.contains(i as usize) {
                        let k = choose|k: int| 0 <= k < r.len() && r[k] == i as usize;
                        if k < p {
                            assert(t[k] == r[k]);
                        } else {
                            assert(t[k + 1] == r[k]);
                        }
                    }
                    if t.contains(i as usize) {
                        let k = choose|k: int| 0 <= k < t.len() && t[k] == i as usize;
                        if k < p {
                            assert(t[k] == r[k]);
                        } else if k > p {
                            assert(t[k] == r[k - 1]);
                        }
                    }
                } else {
                    assert(t[p] == x);
                }
            }
        } else {
            let t = ranked(labels, term, n);
            assert(t == r);
            assert forall|i: int| 0 <= i < n implies (t.contains(i as usize) <==> #[trigger] skim_match(
                labels[i],
                term,
            ) is Some) by {
                if i == n - 1 && t.contains(i as usize) {
                    let k = choose|k: int| 0 <= k < t.len() && t[k] == i as usize;
                    assert(r[k] < n - 1);
                }
            }
        }
    }
}

/// Without a search text every item is listed, each once, in the list's
/// order.
pub proof fn lemma_empty_search_lists_all(labels: Seq<Seq<char>>, term: Seq<char>)
    requires
        term.len() == 0,
        labels.len() <= usize::MAX,
    ensures
        filtered_spec(labels, term).len() == labels.len(),
        forall|i: int| 0 <= i < labels.len() ==> #[trigger] filtered_spec(labels, term)[i] == i,
{
}

/// A search lists the better matches first: for a search text that is
/// not empty, the rows are the items that match it, the fuzzy score never
/// rises from one row to the next, and rows of equal score keep the order
/// of the list (so no item is listed twice).
pub proof fn lemma_rows_best_first(labels: Seq<Seq<char>>, term: Seq<char>)
    requires
        term.len() > 0,
        labels.len() <= usize::MAX,
    ensures
        forall|a: int, b: int|
            0 <= a < b < filtered_spec(labels, term).len() ==> score_of(
                labels,
                term,
                #[trigger] filtered_spec(labels, term)[a] as int,
            ) >= score_of(labels, term, #[trigger] filtered_spec(labels, term)[b] as int) && (score_of(
                labels,
                term,
                filtered_spec(labels, term)[a] as int,
            ) == score_of(labels, term, filtered_spec(labels, term)[b] as int)
                ==> filtered_spec(labels, term)[a] < filtered_spec(labels, term)[b]),
        forall|i: int|
            0 <= i < labels.len() ==> (filtered_spec(labels, term).contains(i as usize)
                <==> #[trigger] skim_match(labels[i], term) is Some),
{
    lemma_ranked_best_first(labels, term, labels.len());
    lemma_ranked_matches(labels, term, labels.len());
}

/// What was chosen in a list: the label of one item, or of several.
#[derive(Debug, PartialEq, Eq)]
pub enum Chosen {
    Single(String),
    Multiple(Vec<String>),
}

/// What a key does to a list.
#[derive(Debug, PartialEq, Eq)]
pub enum SelectIntent {
    Abort,
    Accept(Chosen),
    /// The item under the cursor may have changed; the label of the item
    /// now under it.
    Change(Option<String>),
}

/// The mathematical form of a `SelectIntent`.
pub enum IntentView {
    Abort,
    Single(Seq<char>),
    Multiple(Seq<Seq<char>>),
    Change(Option<Seq<char>>),
}

pub open spec fn intent_view(i: SelectIntent) -> IntentView {
    match i {
        SelectIntent::Abort => IntentView::Abort,
        SelectIntent::Accept(Chosen::Single(l)) => IntentView::Single(l@),
        SelectIntent::Accept(Chosen::Multiple(ls)) => IntentView::Multiple(labels_view(ls@)),
        SelectIntent::Change(o) => IntentView::Change(
            match o {
                Some(l) => Some(l@),
                None => None,
            },
        ),
    }
}

/// A list of items to choose from, with a fuzzy search. Items are given
/// by their labels and chosen by their positions.
pub struct Select {
    title: String,
    prompt: String,
    items: Vec<String>,
    cursor: Option<usize>,
    chosen: Vec<String>,
    search: String,
    multiple: bool,
}

impl Select {
    pub closed spec fn title_text(self) -> Seq<char> {
        self.title@
    }

    pub closed spec fn prompt_text(self) -> Seq<char> {
        self.prompt@
    }

    /// The title of the list.
    pub fn title(&self) -> (res: &str)
        ensures
            res@ == self.title_text(),
    {
        self.title.as_str()
    }

    /// The label of the search field.
    pub fn prompt(&self) -> (res: &str)
        ensures
            res@ == self.prompt_text(),
    {
        self.prompt.as_str()
    }

    /// Whether several items may be chosen.
    pub fn is_multiple(&self) -> (res: bool)
        ensures
            res == self.multiple(),
    {
        self.multiple
    }

    /// The search text.
    pub fn search_text(&self) -> (res: &str)
        ensures
            res@ == self.search(),
    {
        self.search.as_str()
    }

    /// Whether the item at `i` has been chosen (several at a time).
    pub fn is_chosen(&self, i: usize) -> (res: bool)
        requires
            i < self.items().len(),
        ensures
            res == self.chosen().contains(self.items()[i as int]),
    {
        proof {
            assert(self.items()[i as int] == self.items@[i as int]@);
        }
        contains_label(&self.chosen, self.items[i].as_str())
    }

    pub closed spec fn items(self) -> Seq<Seq<char>> {
        labels_view(self.items@)
    }

    /// The row under the cursor, if any.
    pub closed spec fn cursor(self) -> Option<usize> {
        self.cursor
    }

    /// The labels of the items chosen so far, in the order chosen
    /// (several at a time).
    pub closed spec fn chosen(self) -> Seq<Seq<char>> {
        labels_view(self.chosen@)
    }

    pub closed spec fn search(self) -> Seq<char> {
        self.search@
    }

    pub closed spec fn multiple(self) -> bool {
        self.multiple
    }

    /// The positions of the items listed, row by row.
    pub open spec fn rows(self) -> Seq<usize> {
        filtered_spec(self.items(), self.search())
    }

    /// The label of the item under the cursor.
    pub open spec fn current_label(self) -> Option<Seq<char>> {
        match self.current() {
            Some(p) => Some(self.items()[p as int]),
            None => None,
        }
    }

    /// The item under the cursor.
    pub open spec fn current(self) -> Option<usize> {
        match self.cursor() {
            Some(i) => if i < self.rows().len() {
                Some(self.rows()[i as int])
            } else {
                None
            },
            None => None,
        }
    }

    /// A list of `items`, with the cursor on the first row, nothing chosen
    /// and no search, choosing one item.
    pub fn new(title: String, prompt: String, items: Vec<String>) -> (res: Select)
        ensures
            res.title_text() == title@,
            res.prompt_text() == prompt@,
            res.items() == labels_view(items@),
            res.cursor() == Some(0usize),
            res.chosen().len() == 0,
            res.search().len() == 0,
            !res.multiple(),
    {
        Select {
            title,
            prompt,
            items,
            cursor: Some(0),
            chosen: Vec::new(),
            search: String::new(),
            multiple: false,
        }
    }

    /// The same list, choosing several items or one.
    pub fn with_multiple(self, multiple: bool) -> (res: Select)
        ensures
            res.title_text() == self.title_text(),
            res.prompt_text() == self.prompt_text(),
            res.items() == self.items(),
            res.cursor() == self.cursor(),
            res.chosen() == self.chosen(),
            res.search() == self.search(),
            res.multiple() == multiple,
    {
        Select { multiple, ..self }
    }

    /// Replaces the items; no row is under the cursor.
    pub fn set_items(&mut self, items: Vec<String>)
        ensures
            final(self).items() == labels_view(items@),
            final(self).cursor() is None,
            final(self).chosen() == old(self).chosen(),
            final(self).search() == old(self).search(),
            final(self).multiple() == old(self).multiple(),
            final(self).title_text() == old(self).title_text(),
            final(self).prompt_text() == old(self).prompt_text(),
    {
        self.items = items;
        self.cursor = None;
    }

    /// The items listed, row by row: each item's position, and for a
    /// search, the positions of its characters that match.
    pub fn get_filtered_items(&self) -> (res: Vec<(usize, Option<Vec<usize>>)>)
        ensures
            res@.map_values(|r: (usize, Option<Vec<usize>>)| r.0) == self.rows(),
            forall|j: int| 0 <= j < res@.len() ==> (#[trigger] res@[j]).0 < self.items().len(),
            forall|j: int|
                0 <= j < res@.len() ==> match (#[trigger] res@[j]).1 {
                    None => self.search().len() == 0,
                    Some(p) => self.search().len() > 0 && skim_match(
                        self.items()[res@[j].0 as int],
                        self.search(),
                    ) == Some((score_of(self.items(), self.search(), res@[j].0 as int), p@)),
                },
    {
        let ghost labels = self.items();
        let ghost term = self.search@;
        let n = self.items.len();
        let mut out: Vec<(usize, Option<Vec<usize>>)> = Vec::new();
        if self.search.unicode_len() == 0 {
            let mut i: usize = 0;
            while i < n
                invariant
                    n == self.items@.len(),
                    term.len() == 0,
                    i <= n,
                    out@.len() == i,
                    forall|j: int| 0 <= j < i ==> (#[trigger] out@[j]) == (j as usize, None::<Vec<usize>>),
                decreases n - i,
            {
                out.push((i, None));
                i = i + 1;
            }
            proof {
                assert(out@.map_values(|r: (usize, Option<Vec<usize>>)| r.0) =~= filtered_spec(labels, term));
            }
            return out;
        }
        let mut scores: Vec<i64> = Vec::new();
        let mut i: usize = 0;
        while i < n
            invariant
                n == self.items@.len(),
                labels == labels_view(self.items@),
                term == self.search@,
                term.len() > 0,
                i <= n,
                out@.map_values(|r: (usize, Option<Vec<usize>>)| r.0) == ranked(labels, term, i as nat),
                scores@.len() == out@.len(),
                forall|j: int|
                    0 <= j < out@.len() ==> #[trigger] scores@[j] == score_of(labels, term, out@[j].0 as int),
                forall|j: int|
                    0 <= j < out@.len() ==> (#[trigger] out@[j]).0 < i && (out@[j].1 matches Some(p)
                        && skim_match(labels[out@[j].0 as int], term) == Some(
                        (score_of(labels, term, out@[j].0 as int), p@),
                    )),
            decreases n - i,
        {
            proof {
                assert(labels[i as int] == self.items@[i as int]@);
            }
            match skim_fuzzy(self.items[i].as_str(), self.search.as_str()) {
                Some((score, positions)) => {
                    let mut j: usize = 0;
                    while j < scores.len() && !(scores[j] < score)
                        invariant
                            j <= scores@.len(),
                            scores@.len() == out@.len(),
                            score == score_of(labels, term, i as int),
                            forall|k: int|
                                0 <= k < out@.len() ==> #[trigger] scores@[k] == score_of(labels, term, out@[k].0 as int),
                            forall|k: int|
                                0 <= k < j ==> !(score_of(
                                    labels,
                                    term,
                                    (#[trigger] out@[k]).0 as int,
                                ) < score),
                        decreases scores@.len() - j,
                    {
                        j = j + 1;
                    }
                    let ghost r = out@.map_values(|r: (usize, Option<Vec<usize>>)| r.0);
                    proof {
                        if j < scores@.len() {
                            assert(r[j as int] == out@[j as int].0);
                        }
                        assert forall|k: int| 0 <= k < j implies !(score_of(
                            labels,
                            term,
                            #[trigger] r[k] as int,
                        ) < score_of(labels, term, i as int)) by {
                            assert(r[k] == out@[k].0);
                        }
                        lemma_insert_pos(labels, term, r, i, j as int);
                        assert(ranked(labels, term, (i + 1) as nat) == r.insert(j as int, i));
                    }
                    let ghost old_out = out@;
                    let ghost old_scores = scores@;
                    out.insert(j, (i, Some(positions)));
                    scores.insert(j, score);
                    proof {
                        assert(out@.map_values(|r: (usize, Option<Vec<usize>>)| r.0) =~= r.insert(j as int, i));
                        assert forall|k: int| 0 <= k < out@.len() implies #[trigger] scores@[k] == score_of(
                            labels,
                            term,
                            out@[k].0 as int,
                        ) by {
                            if k < j {
                                assert(out@[k] == old_out[k]);
                                assert(scores@[k] == old_scores[k]);
                            } else if k > j {
                                assert(out@[k] == old_out[k - 1]);
                                assert(scores@[k] == old_scores[k - 1]);
                            }
                        }
                        assert forall|k: int| 0 <= k < out@.len() implies (#[trigger] out@[k]).0 < i + 1
                            && (out@[k].1 matches Some(p) && skim_match(labels[out@[k].0 as int], term)
                            == Some((score_of(labels, term, out@[k].0 as int), p@))) by {
                            if k < j {
                                assert(out@[k] == old_out[k]);
                            } else if k > j {
                                assert(out@[k] == old_out[k - 1]);
                            }
                        }
                    }
                },
                None => {},
            }
            i = i + 1;
        }
        out
    }

    /// The item under the cursor.
    pub fn selected_item(&self) -> (res: Option<usize>)
        ensures
            res == self.current(),
            res matches Some(p) ==> p < self.items().len(),
    {
        match self.cursor {
            Some(i) => {
                let rows = self.get_filtered_items();
                proof {
                    assert(rows@.len() == self.rows().len());
                }
                if i < rows.len() {
                    proof {
                        assert(rows@.map_values(|r: (usize, Option<Vec<usize>>)| r.0)[i as int] == rows@[i as int].0);
                        assert(rows@[i as int].0 < self.items().len());
                    }
                    Some(rows[i].0)
                } else {
                    None
                }
            },
            None => None,
        }
    }

    /// How many rows are listed.
    pub fn row_count(&self) -> (res: usize)
        ensures
            res == self.rows().len(),
    {
        let rows = self.get_filtered_items();
        proof {
            assert(rows@.len() == rows@.map_values(|r: (usize, Option<Vec<usize>>)| r.0).len());
        }
        rows.len()
    }

    /// Moves the cursor to the next row, from the last to the first; onto
    /// the first row when no row is under it. With no rows listed, the
    /// cursor must be off the list.
    pub fn select_next(&mut self)
        requires
            old(self).cursor() is Some ==> old(self).rows().len() > 0,
        ensures
            final(self).cursor() == match old(self).cursor() {
                None => Some(0usize),
                Some(i) => Some(((i + 1) % (old(self).rows().len() as int)) as usize),
            },
            final(self).items() == old(self).items(),
            final(self).chosen() == old(self).chosen(),
            final(self).search() == old(self).search(),
            final(self).multiple() == old(self).multiple(),
            final(self).title_text() == old(self).title_text(),
            final(self).prompt_text() == old(self).prompt_text(),
    {
        let len = self.row_count();
        match self.cursor {
            None => {
                self.cursor = Some(0);
            },
            Some(i) => {
                let next = if i % len == len - 1 {
                    0
                } else {
                    i % len + 1
                };
                proof {
                    lemma_wrap_next(i as int, len as int);
                }
                self.cursor = Some(next);
            },
        }
    }

    /// Moves the cursor to the row before, from the first to the last;
    /// onto the last row when no row is under it. Some row must be listed.
    pub fn select_prev(&mut self)
        requires
            old(self).rows().len() > 0,
        ensures
            final(self).cursor() == match old(self).cursor() {
                None => Some((old(self).rows().len() - 1) as usize),
                Some(i) => Some(
                    ((old(self).rows().len() + i - 1) % (old(self).rows().len() as int)) as usize,
                ),
            },
            final(self).items() == old(self).items(),
            final(self).chosen() == old(self).chosen(),
            final(self).search() == old(self).search(),
            final(self).multiple() == old(self).multiple(),
            final(self).title_text() == old(self).title_text(),
            final(self).prompt_text() == old(self).prompt_text(),
    {
        let len = self.row_count();
        match self.cursor {
            None => {
                self.cursor = Some(len - 1);
            },
            Some(i) => {
                let prev = if i % len == 0 {
                    len - 1
                } else {
                    i % len - 1
                };
                proof {
                    lemma_wrap_prev(i as int, len as int);
                }
                self.cursor = Some(prev);
            },
        }
    }

    /// Moves the cursor onto the first row.
    pub fn select_first(&mut self)
        ensures
            final(self).cursor() == Some(0usize),
            final(self).items() == old(self).items(),
            final(self).chosen() == old(self).chosen(),
            final(self).search() == old(self).search(),
            final(self).multiple() == old(self).multiple(),
            final(self).title_text() == old(self).title_text(),
            final(self).prompt_text() == old(self).prompt_text(),
    {
        self.cursor = Some(0);
    }

    /// Moves the cursor onto the first row that lists an item with the
    /// label `item`; leaves it where it is when no row does.
    pub fn try_select(&mut self, item: &str)
        ensures
            match first_row_with(old(self).items(), old(self).rows(), item@) {
                Some(p) => final(self).cursor() == Some(p as usize),
                None => final(self).cursor() == old(self).cursor(),
            },
            final(self).items() == old(self).items(),
            final(self).chosen() == old(self).chosen(),
            final(self).search() == old(self).search(),
            final(self).multiple() == old(self).multiple(),
            final(self).title_text() == old(self).title_text(),
            final(self).prompt_text() == old(self).prompt_text(),
    {
        let rows = self.get_filtered_items();
        let ghost rv = rows@.map_values(|r: (usize, Option<Vec<usize>>)| r.0);
        proof {
            assert forall|k: int| 0 <= k < rv.len() implies #[trigger] rv[k] < self.items@.len() by {
                assert(rv[k] == rows@[k].0);
            }
        }
        let mut p: usize = 0;
        while p < rows.len()
            invariant
                rv == rows@.map_values(|r: (usize, Option<Vec<usize>>)| r.0),
                rv == old(self).rows(),
                *self == *old(self),
                p <= rows@.len(),
                forall|k: int| 0 <= k < p ==> self.items()[#[trigger] rv[k] as int] != item@,
                forall|k: int| 0 <= k < rv.len() ==> #[trigger] rv[k] < self.items@.len(),
            decreases rows@.len() - p,
        {
            proof {
                assert(rv[p as int] == rows@[p as int].0);
                assert(self.items()[rv[p as int] as int] == self.items@[rv[p as int] as int]@);
            }
            if matches!(compare_keys(self.items[rows[p].0].as_str(), item), KeyOrder::Equal) {
                proof {
                    lemma_first_row_with(self.items(), rv, item@, p as int);
                }
                self.cursor = Some(p);
                return;
            }
            p = p + 1;
        }
        proof {
            lemma_no_row_with(self.items(), rv, item@);
        }
    }
}

proof fn lemma_wrap_next(i: int, len: int)
    requires
        0 <= i,
        0 < len,
    ensures
        (i + 1) % len == if i % len == len - 1 {
            0
        } else {
            i % len + 1
        },
{
    vstd::arithmetic::div_mod::lemma_add_mod_noop_right(1, i, len);
    vstd::arithmetic::div_mod::lemma_mod_division_less_than_divisor(i, len);
    let r = i % len;
    if r == len - 1 {
        vstd::arithmetic::div_mod::lemma_mod_self_0(len);
    } else {
        vstd::arithmetic::div_mod::lemma_small_mod((r + 1) as nat, len as nat);
    }
}

proof fn lemma_wrap_prev(i: int, len: int)
    requires
        0 <= i,
        0 < len,
    ensures
        (len + i - 1) % len == if i % len == 0 {
            len - 1
        } else {
            i % len - 1
        },
{
    vstd::arithmetic::div_mod::lemma_add_mod_noop_right(len - 1, i, len);
    vstd::arithmetic::div_mod::lemma_mod_division_less_than_divisor(i, len);
    let r = i % len;
    if r == 0 {
        vstd::arithmetic::div_mod::lemma_small_mod((len - 1) as nat, len as nat);
    } else {
        vstd::arithmetic::div_mod::lemma_mod_add_multiples_vanish(r - 1, len);
        vstd::arithmetic::div_mod::lemma_small_mod((r - 1) as nat, len as nat);
    }
}

/// Whether a label is among `labels`.
fn contains_label(labels: &Vec<String>, label: &str) -> (res: bool)
    ensures
        res == labels_view(labels@).contains(label@),
{
    let mut i: usize = 0;
    while i < labels.len()
        invariant
            i <= labels@.len(),
            forall|k: int| 0 <= k < i ==> (#[trigger] labels@[k])@ != label@,
        decreases labels@.len() - i,
    {
        if matches!(compare_keys(labels[i].as_str(), label), KeyOrder::Equal) {
            proof {
                assert(labels_view(labels@)[i as int] == label@);
            }
            return true;
        }
        i = i + 1;
    }
    proof {
        if labels_view(labels@).contains(label@) {
            let k = choose|k: int| 0 <= k < labels_view(labels@).len() && labels_view(labels@)[k] == label@;
            assert(labels_view(labels@)[k] == labels@[k]@);
        }
    }
    false
}

/// `labels` without the ones equal to `label`, in order.
fn without_label(labels: &Vec<String>, label: &str) -> (res: Vec<String>)
    ensures
        labels_view(res@) == labels_view(labels@).filter(|l: Seq<char>| l != label@),
{
    let mut out: Vec<String> = Vec::new();
    let mut i: usize = 0;
    while i < labels.len()
        invariant
            i <= labels@.len(),
            labels_view(out@) == labels_view(labels@).take(i as int).filter(|l: Seq<char>| l != label@),
        decreases labels@.len() - i,
    {
        proof {
            assert(labels_view(labels@).take(i + 1).drop_last() =~= labels_view(labels@).take(i as int));
            assert(labels_view(labels@).take(i + 1).last() == labels@[i as int]@);
        }
        let ghost before = labels_view(out@);
        if !matches!(compare_keys(labels[i].as_str(), label), KeyOrder::Equal) {
            out.push(labels[i].clone());
            proof {
                assert(labels_view(out@) =~= before.push(labels@[i as int]@));
            }
        }
        proof {
            reveal(Seq::filter);
            assert(labels_view(labels@).take(i + 1).filter(|l: Seq<char>| l != label@) == if labels@[i as int]@ != label@ {
                labels_view(labels@).take(i as int).filter(|l: Seq<char>| l != label@).push(labels@[i as int]@)
            } else {
                labels_view(labels@).take(i as int).filter(|l: Seq<char>| l != label@)
            });
        }
        i = i + 1;
    }
    proof {
        assert(labels_view(labels@).take(i as int) =~= labels_view(labels@));
    }
    out
}

/// The list of request files of the main screen.
pub struct RequestSelector {
    pub selector: Select,
}

impl RequestSelector {
    /// An empty list titled `Requests`, searched by `Search`.
    pub fn new() -> (res: RequestSelector)
        ensures
            res.selector.title_text() == "Requests"@,
            res.selector.prompt_text() == "Search"@,
            res.selector.items().len() == 0,
            res.selector.cursor() == Some(0usize),
            res.selector.chosen().len() == 0,
            res.selector.search().len() == 0,
            !res.selector.multiple(),
    {
        let items: Vec<String> = Vec::new();
        proof {
            assert(labels_view(items@) =~= Seq::<Seq<char>>::empty());
        }
        RequestSelector {
            selector: Select::new(String::from_str("Requests"), String::from_str("Search"), items),
        }
    }

    /// Lists the request files `reqs`.
    pub fn populate(&mut self, reqs: Vec<String>)
        ensures
            final(self).selector.items() == labels_view(reqs@),
            final(self).selector.cursor() is None,
            final(self).selector.chosen() == old(self).selector.chosen(),
            final(self).selector.search() == old(self).selector.search(),
            final(self).selector.multiple() == old(self).selector.multiple(),
            final(self).selector.title_text() == old(self).selector.title_text(),
            final(self).selector.prompt_text() == old(self).selector.prompt_text(),
    {
        self.selector.set_items(reqs);
    }

    /// Moves the cursor onto the request file `selected`, if it is listed.
    pub fn try_select(&mut self, selected: &str)
        ensures
            match first_row_with(old(self).selector.items(), old(self).selector.rows(), selected@) {
                Some(p) => final(self).selector.cursor() == Some(p as usize),
                None => final(self).selector.cursor() == old(self).selector.cursor(),
            },
            final(self).selector.items() == old(self).selector.items(),
            final(self).selector.chosen() == old(self).selector.chosen(),
            final(self).selector.search() == old(self).selector.search(),
            final(self).selector.multiple() == old(self).selector.multiple(),
    {
        self.selector.try_select(selected);
    }
}

/// Where the cursor goes one row down: onto the first row from off the
/// list, from the last row back to the first.
pub open spec fn next_cursor(c: Option<usize>, len: int) -> Option<usize> {
    match c {
        None => Some(0usize),
        Some(i) => Some(((i + 1) % len) as usize),
    }
}

/// Where the cursor goes one row up: onto the last row from off the list,
/// from the first row to the last.
pub open spec fn prev_cursor(c: Option<usize>, len: int) -> Option<usize> {
    match c {
        None => Some((len - 1) as usize),
        Some(i) => Some(((len + i - 1) % len) as usize),
    }
}

/// The chosen labels after choosing or unchoosing the label under the
/// cursor: a chosen label is taken out (every copy), another is added.
pub open spec fn toggled(chosen: Seq<Seq<char>>, current: Option<Seq<char>>) -> Seq<Seq<char>> {
    match current {
        Some(l) => if chosen.contains(l) {
            chosen.filter(|x: Seq<char>| x != l)
        } else {
            chosen.push(l)
        },
        None => chosen,
    }
}

/// The form of what a list's reaction to a key gives.
pub open spec fn opt_intent_view(r: Option<SelectIntent>) -> Option<IntentView> {
    match r {
        Some(i) => Some(intent_view(i)),
        None => None,
    }
}

/// How a list reacts to a key, from the state `before` to the state
/// `after`, giving `res`: the arrows move the cursor, wrapping around; tab
/// and the header toggle choose or unchoose the item under the cursor when
/// several may be chosen (tab then moves down); enter accepts; escape
/// aborts; a key that edits the search text puts the cursor on the first
/// row. Every move reports the item now under the cursor.
pub open spec fn select_step(
    before: Select,
    after: Select,
    event: Event,
    edited: Option<String>,
    res: Option<IntentView>,
) -> bool {
    &&& after.items() == before.items()
    &&& after.multiple() == before.multiple()
    &&& after.title_text() == before.title_text()
    &&& after.prompt_text() == before.prompt_text()
    &&& match event_meaning(event) {
        KeyMapping::Up => after.cursor() == prev_cursor(before.cursor(), before.rows().len() as int)
            && after.chosen() == before.chosen() && after.search() == before.search() && res
            == Some(IntentView::Change(after.current_label())),
        KeyMapping::Down => after.cursor() == next_cursor(
            before.cursor(),
            before.rows().len() as int,
        ) && after.chosen() == before.chosen() && after.search() == before.search() && res == Some(
            IntentView::Change(after.current_label()),
        ),
        KeyMapping::Tab => if before.multiple() {
            after.chosen() == toggled(before.chosen(), before.current_label()) && after.cursor()
                == next_cursor(before.cursor(), before.rows().len() as int) && after.search()
                == before.search() && res == Some(IntentView::Change(after.current_label()))
        } else {
            after.same_state(before) && res is None
        },
        KeyMapping::ToggleHeaders => if before.multiple() {
            after.chosen() == toggled(before.chosen(), before.current_label()) && after.cursor()
                == before.cursor() && after.search() == before.search() && res == Some(
                IntentView::Change(after.current_label()),
            )
        } else {
            after.same_state(before) && res is None
        },
        KeyMapping::Accept => after.same_state(before) && res == before.accepted(),
        KeyMapping::Abort => after.same_state(before) && res == Some(IntentView::Abort),
        KeyMapping::Unmapped => match edited {
            Some(v) => after.search() == v@ && after.cursor() == Some(0usize) && after.chosen()
                == before.chosen() && res == Some(IntentView::Change(after.current_label())),
            None => after.same_state(before) && res is None,
        },
        _ => after.same_state(before) && res is None,
    }
}

impl Select {
    /// The key can be handled: a move of the cursor needs rows to move
    /// over.
    pub open spec fn takes(self, event: Event) -> bool {
        &&& event_meaning(event) == KeyMapping::Up ==> self.rows().len() > 0
        &&& event_meaning(event) == KeyMapping::Down ==> (self.cursor() is Some ==> self.rows().len() > 0)
        &&& event_meaning(event) == KeyMapping::Tab && self.multiple() ==> (self.cursor() is Some
            ==> self.rows().len() > 0)
    }
}

impl Select {
    /// The two lists are in the same state.
    pub open spec fn same_state(self, other: Select) -> bool {
        &&& self.items() == other.items()
        &&& self.cursor() == other.cursor()
        &&& self.chosen() == other.chosen()
        &&& self.search() == other.search()
        &&& self.multiple() == other.multiple()
        &&& self.title_text() == other.title_text()
        &&& self.prompt_text() == other.prompt_text()
    }

    /// What accepting gives: the item under the cursor; choosing several,
    /// the items chosen, or if none was, the item under the cursor.
    pub open spec fn accepted(self) -> Option<IntentView> {
        if !self.multiple() {
            match self.current_label() {
                Some(l) => Some(IntentView::Single(l)),
                None => None,
            }
        } else if self.chosen().len() == 0 {
            Some(
                IntentView::Multiple(
                    match self.current_label() {
                        Some(l) => seq![l],
                        None => Seq::empty(),
                    },
                ),
            )
        } else {
            Some(IntentView::Multiple(self.chosen()))
        }
    }

    /// Whether the list can take the key (`takes`).
    pub fn can_take(&self, event: &Event) -> (res: bool)
        ensures
            res == self.takes(*event),
    {
        let rows = self.row_count();
        match mapkey(event) {
            KeyMapping::Up => rows > 0,
            KeyMapping::Down => self.cursor.is_none() || rows > 0,
            KeyMapping::Tab => !self.multiple || self.cursor.is_none() || rows > 0,
            _ => true,
        }
    }

    /// The row the cursor is on, if any.
    pub fn cursor_row(&self) -> (res: Option<usize>)
        ensures
            res == self.cursor(),
    {
        self.cursor
    }

    /// The label of the `i`th item.
    pub fn item_label(&self, i: usize) -> (res: &str)
        requires
            i < self.items().len(),
        ensures
            res@ == self.items()[i as int],
    {
        self.items[i].as_str()
    }

    /// The label of the item under the cursor.
    pub fn current_text(&self) -> (res: Option<String>)
        ensures
            match res {
                Some(l) => self.current_label() == Some(l@),
                None => self.current_label() is None,
            },
    {
        match self.selected_item() {
            Some(p) => {
                proof {
                    assert(self.items()[p as int] == self.items@[p as int]@);
                }
                Some(self.items[p].clone())
            },
            None => None,
        }
    }

    /// Reacts to a key. `edited` is the search text after the key when the
    /// search field's text changed with it. Moving the cursor needs rows
    /// to move over.
    pub fn handle_event(&mut self, event: &Event, edited: Option<String>) -> (res: Option<
        SelectIntent,
    >)
        requires
            old(self).takes(*event),
        ensures
            select_step(*old(self), *final(self), *event, edited, opt_intent_view(res)),
    {
        let meaning = mapkey(event);
        match meaning {
            KeyMapping::Up => {
                self.select_prev();
                Some(SelectIntent::Change(self.current_text()))
            },
            KeyMapping::Down => {
                self.select_next();
                Some(SelectIntent::Change(self.current_text()))
            },
            KeyMapping::Tab | KeyMapping::ToggleHeaders => {
                if !self.multiple {
                    return None;
                }
                let ghost before = self.chosen();
                match self.current_text() {
                    Some(l) => {
                        if contains_label(&self.chosen, l.as_str()) {
                            self.chosen = without_label(&self.chosen, l.as_str());
                            proof {
                                let lv = l@;
                                assert((|x: Seq<char>| x != l@) =~= (|x: Seq<char>| x != lv));
                                assert(self.chosen() == toggled(before, Some(lv)));
                            }
                        } else {
                            self.chosen.push(l);
                            proof {
                                assert(self.chosen() =~= before.push(l@));
                            }
                        }
                    },
                    None => {},
                }
                if matches!(meaning, KeyMapping::Tab) {
                    self.select_next();
                }
                Some(SelectIntent::Change(self.current_text()))
            },
            KeyMapping::Accept => {
                if !self.multiple {
                    match self.current_text() {
                        Some(l) => Some(SelectIntent::Accept(Chosen::Single(l))),
                        None => None,
                    }
                } else {
                    let chosen = if self.chosen.len() == 0 {
                        match self.current_text() {
                            Some(l) => {
                                let v = vec![l];
                                proof {
                                    assert(labels_view(v@) =~= seq![l@]);
                                }
                                v
                            },
                            None => {
                                let v: Vec<String> = Vec::new();
                                proof {
                                    assert(labels_view(v@) =~= Seq::<Seq<char>>::empty());
                                }
                                v
                            },
                        }
                    } else {
                        clone_labels(&self.chosen)
                    };
                    Some(SelectIntent::Accept(Chosen::Multiple(chosen)))
                }
            },
            KeyMapping::Abort => Some(SelectIntent::Abort),
            KeyMapping::Unmapped => match edited {
                Some(v) => {
                    self.search = v;
                    self.select_first();
                    Some(SelectIntent::Change(self.current_text()))
                },
                None => None,
            },
            _ => None,
        }
    }
}

/// A copy of a list of labels.
fn clone_labels(labels: &Vec<String>) -> (res: Vec<String>)
    ensures
        labels_view(res@) == labels_view(labels@),
{
    let mut out: Vec<String> = Vec::new();
    let mut i: usize = 0;
    while i < labels.len()
        invariant
            i <= labels@.len(),
            labels_view(out@) == labels_view(labels@).take(i as int),
        decreases labels@.len() - i,
    {
        let ghost before = labels_view(out@);
        let l = labels[i].clone();
        out.push(l);
        proof {
            assert(labels_view(out@) =~= before.push(labels@[i as int]@));
            assert(labels_view(labels@).take(i + 1) =~= labels_view(labels@).take(i as int).push(
                labels@[i as int]@,
            ));
        }
        i = i + 1;
    }
    proof {
        assert(labels_view(labels@).take(i as int) =~= labels_view(labels@));
    }
    out
}

/// Choosing an item that was not chosen, then unchoosing it, leaves the
/// chosen items as they were.
pub proof fn lemma_toggle_twice(chosen: Seq<Seq<char>>, label: Seq<char>)
    requires
        !chosen.contains(label),
    ensures
        toggled(toggled(chosen, Some(label)), Some(label)) == chosen,
{
    let pushed = chosen.push(label);
    assert(pushed.contains(label)) by {
        assert(pushed[chosen.len() as int] == label);
    }
    lemma_filter_without(chosen, label);
    reveal(Seq::filter);
    assert(pushed.drop_last() =~= chosen);
    assert(pushed.filter(|x: Seq<char>| x != label) == chosen.filter(|x: Seq<char>| x != label));
}

/// Taking out a label that a list does not hold leaves the list as it is.
proof fn lemma_filter_without(s: Seq<Seq<char>>, label: Seq<char>)
    requires
        !s.contains(label),
    ensures
        s.filter(|x: Seq<char>| x != label) == s,
    decreases s.len(),
{
    reveal(Seq::filter);
    if s.len() > 0 {
        let r = s.drop_last();
        assert(!r.contains(label)) by {
            if r.contains(label) {
                let i = choose|i: int| 0 <= i < r.len() && r[i] == label;
                assert(s[i] == label);
            }
        }
        lemma_filter_without(r, label);
        assert(s.last() != label) by {
            if s.last() == label {
                assert(s[s.len() - 1] == label);
            }
        }
        assert(r.push(s.last()) =~= s);
    }
}

/// The first row that lists an item labelled `label`.
pub open spec fn first_row_with(labels: Seq<Seq<char>>, rows: Seq<usize>, label: Seq<char>) -> Option<
    int,
>
    decreases rows.len(),
{
    if rows.len() == 0 {
        None
    } else if labels[rows[0] as int] == label {
        Some(0)
    } else {
        match first_row_with(labels, rows.drop_first(), label) {
            Some(p) => Some(p + 1),
            None => None,
        }
    }
}

proof fn lemma_first_row_with(labels: Seq<Seq<char>>, rows: Seq<usize>, label: Seq<char>, p: int)
    requires
        0 <= p < rows.len(),
        labels[rows[p] as int] == label,
        forall|k: int| 0 <= k < p ==> labels[#[trigger] rows[k] as int] != label,
    ensures
        first_row_with(labels, rows, label) == Some(p),
    decreases p,
{
    if p > 0 {
        let r = rows.drop_first();
        assert forall|k: int| 0 <= k < p - 1 implies labels[#[trigger] r[k] as int] != label by {
            assert(r[k] == rows[k + 1]);
        }
        assert(r[p - 1] == rows[p]);
        assert(labels[rows[0] as int] != label);
        lemma_first_row_with(labels, r, label, p - 1);
    }
}

proof fn lemma_no_row_with(labels: Seq<Seq<char>>, rows: Seq<usize>, label: Seq<char>)
    requires
        forall|k: int| 0 <= k < rows.len() ==> labels[#[trigger] rows[k] as int] != label,
    ensures
        first_row_with(labels, rows, label) is None,
    decreases rows.len(),
{
    if rows.len() > 0 {
        let r = rows.drop_first();
        assert forall|k: int| 0 <= k < r.len() implies labels[#[trigger] r[k] as int] != label by {
            assert(r[k] == rows[k + 1]);
        }
        assert(labels[rows[0] as int] != label);
        lemma_no_row_with(labels, r, label);
    }
}

} // verus!
