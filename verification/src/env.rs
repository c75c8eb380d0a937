use crate::path::{join_view, FilePath, PathView};
use crate::resolve::{toml_path_view, Resolved};
use crate::scope::Scope;
use crate::toml_text::{parse_toml, toml_parse};
use crate::text::{ends_with, first_index_of, lemma_first_index_of, find_char, trim, trim_spec};
use crate::value::{
    compare_keys, entries_view, is_merge, keys_sorted, lemma_entries_view, lemma_values_view,
    overlay_get, value_view, values_view, view_get, KeyOrder, TomlTable, TomlValue, TomlView,
};
use vstd::prelude::*;
use vstd::string::*;

verus! {

/// A jar that keeps the cookies of responses in the data file of a
/// project.
pub struct HitmanCookieJar {
    root_dir: FilePath,
}

impl HitmanCookieJar {
    /// The project root the jar keeps its cookies under.
    pub closed spec fn root(self) -> PathView {
        self.root_dir@
    }

    /// A jar for the project at `root_dir`.
    pub fn new(root_dir: &FilePath) -> (res: HitmanCookieJar)
        ensures
            res.root() == root_dir@,
    {
        HitmanCookieJar { root_dir: root_dir.duplicate() }
    }

    /// The data file that holds the cookies.
    pub fn data_file(&self) -> (res: FilePath)
        ensures
            res@ == join_view(self.root(), ".hitman-data.toml"@),
    {
        self.root_dir.join(".hitman-data.toml")
    }
}

/// Key of the data file under which cookies are kept.
pub open spec fn cookie_key() -> Seq<char> {
    "Cookies"@
}

/// The name and value that `cookie::Cookie::parse` reads from a
/// `Set-Cookie` value: the text before the first `;` is split at its first
/// `=`, both sides trimmed; without `=`, or with an empty name, parsing
/// fails.
pub open spec fn cookie_pair_spec(s: Seq<char>) -> Option<(Seq<char>, Seq<char>)> {
    let head = match first_index_of(s, ';') {
        Some(i) => s.take(i),
        None => s,
    };
    match first_index_of(head, '=') {
        None => None,
        Some(i) => {
            let name = trim_spec(head.take(i));
            if name.len() == 0 {
                None
            } else {
                Some((name, trim_spec(head.skip(i + 1))))
            }
        },
    }
}

/// Name and value of a cookie (`cookie::Cookie::parse`, then `name` and
/// `value`). The attributes after the first `;` are read by the crate but
/// never make parsing fail.
#[verifier::external_body]
fn parse_cookie(s: &str) -> (res: Option<(String, String)>)
    ensures
        match cookie_pair_spec(s@) {
            Some((n, v)) => res matches Some((a, b)) && a@ == n && b@ == v,
            None => res is None,
        },
{
    match cookie::Cookie::parse(s) {
        Ok(c) => Some((c.name().to_string(), c.value().to_string())),
        Err(_) => None,
    }
}

/// The `name=value` pairs of the stored cookies that parse.
pub open spec fn cookie_pieces(items: Seq<TomlView>) -> Seq<Seq<char>>
    decreases items.len(),
{
    if items.len() == 0 {
        Seq::empty()
    } else {
        cookie_pieces(items.drop_last()) + match items.last() {
            TomlView::String(s) => match cookie_pair_spec(s) {
                Some((n, v)) => seq![n + "="@ + v],
                None => Seq::empty(),
            },
            _ => Seq::empty(),
        }
    }
}

/// The strings of `list`, with `sep` between each two.
pub open spec fn join_spec(list: Seq<Seq<char>>, sep: Seq<char>) -> Seq<char>
    decreases list.len(),
{
    if list.len() == 0 {
        Seq::empty()
    } else if list.len() == 1 {
        list[0]
    } else {
        join_spec(list.drop_last(), sep) + sep + list.last()
    }
}

/// The `Cookie` header sent with requests: the stored cookies that parse,
/// as `name=value`, separated by `; `. Nothing when the data file holds no
/// list of cookies.
pub open spec fn cookie_header_spec(data: Seq<(Seq<char>, TomlView)>) -> Option<Seq<char>> {
    match view_get(data, cookie_key()) {
        Some(TomlView::Array(items)) => Some(join_spec(cookie_pieces(items), "; "@)),
        _ => None,
    }
}

/// The `Cookie` header for the cookies kept in the data file.
pub fn cookie_header(data: &TomlTable) -> (res: Option<String>)
    ensures
        match cookie_header_spec(data.view_entries()) {
            Some(h) => res matches Some(r) && r@ == h,
            None => res is None,
        },
{
    match data.get("Cookies") {
        Some(TomlValue::Array(arr)) => {
            let ghost items = values_view(arr@);
            proof {
                lemma_values_view(arr@);
            }
            let mut out = String::new();
            let mut any = false;
            let mut i: usize = 0;
            while i < arr.len()
                invariant
                    i <= arr@.len(),
                    items == values_view(arr@),
                    items.len() == arr@.len(),
                    forall|j: int| 0 <= j < arr@.len() ==> #[trigger] items[j] == value_view(arr@[j]),
                    any == (cookie_pieces(items.take(i as int)).len() > 0),
                    out@ == join_spec(cookie_pieces(items.take(i as int)), "; "@),
                decreases arr@.len() - i,
            {
                let ghost before = cookie_pieces(items.take(i as int));
                proof {
                    assert(items.take(i + 1).drop_last() =~= items.take(i as int));
                    assert(items.take(i + 1).last() == items[i as int]);
                }
                match &arr[i] {
                    TomlValue::String(s) => {
                        match parse_cookie(s.as_str()) {
                            Some((n, v)) => {
                                let piece = n.concat("=").concat(v.as_str());
                                if any {
                                    out = out.concat("; ");
                                }
                                out = out.concat(piece.as_str());
                                any = true;
                                proof {
                                    let after = cookie_pieces(items.take(i + 1));
                                    assert(after =~= before + seq![piece@]);
                                    if before.len() > 0 {
                                        assert(after.drop_last() =~= before);
                                    } else {
                                        assert(after =~= seq![piece@]);
                                    }
                                }
                            },
                            None => {
                                proof {
                                    assert(cookie_pieces(items.take(i + 1)) =~= before);
                                }
                            },
                        }
                    },
                    _ => {
                        proof {
                            assert(cookie_pieces(items.take(i + 1)) =~= before);
                        }
                    },
                }
                i = i + 1;
            }
            proof {
                assert(items.take(arr@.len() as int) =~= items);
            }
            Some(out)
        },
        _ => None,
    }
}

/// The data-file entries that keep the cookies a response set.
pub fn cookie_table(cookies: Vec<String>) -> (res: TomlTable)
    ensures
        forall|k: Seq<char>|
            #[trigger] view_get(res.view_entries(), k) == if k == cookie_key() {
                Some(TomlView::Array(cookies@.map_values(|c: String| TomlView::String(c@))))
            } else {
                None::<TomlView>
            },
{
    let mut values: Vec<TomlValue> = Vec::new();
    let mut i: usize = 0;
    while i < cookies.len()
        invariant
            i <= cookies@.len(),
            values@.len() == i,
            forall|j: int|
                0 <= j < i ==> #[trigger] value_view(values@[j]) == TomlView::String(cookies@[j]@),
        decreases cookies@.len() - i,
    {
        values.push(TomlValue::String(cookies[i].clone()));
        i = i + 1;
    }
    let ghost all = cookies@;
    let mut res = TomlTable::new();
    proof {
        lemma_values_view(values@);
        assert(values_view(values@) =~= all.map_values(|c: String| TomlView::String(c@)));
    }
    res.insert(String::from_str("Cookies"), TomlValue::Array(values));
    res
}


/// Merges the table `other` into `config`, merging nested tables into the
/// tables that `config` already holds under the same key.
pub fn merge(config: &mut TomlTable, other: TomlTable)
    ensures
        is_merge(old(config).view_entries(), other.view_entries(), final(config).view_entries()),
        keys_sorted(final(config).view_entries()),
{
    config.merge_from(other);
}

/// `res` is `base` with `file` merged into it, when there is such a file.
pub open spec fn merged_stage(
    base: Seq<(Seq<char>, TomlView)>,
    file: Option<TomlTable>,
    res: Seq<(Seq<char>, TomlView)>,
) -> bool {
    match file {
        Some(f) => is_merge(base, f.view_entries(), res),
        None => res == base,
    }
}

/// The configuration of a project: `hitman.toml` merged into an empty
/// table, then `hitman.local.toml` merged into the result (each when the
/// file exists).
pub fn merge_config_files(shared: Option<TomlTable>, local: Option<TomlTable>) -> (res: TomlTable)
    ensures
        exists|mid: Seq<(Seq<char>, TomlView)>|
            #[trigger] merged_stage(Seq::empty(), shared, mid) && merged_stage(mid, local, res.view_entries()),
{
    let mut config = TomlTable::new();
    let ghost empty = config.view_entries();
    if let Some(content) = shared {
        merge(&mut config, content);
    }
    let ghost mid = config.view_entries();
    assert(merged_stage(empty, shared, mid));
    if let Some(content) = local {
        merge(&mut config, content);
    }
    assert(merged_stage(mid, local, config.view_entries()));
    config
}

/// The personal configuration wins: a value of `hitman.local.toml` that is
/// not a table replaces what the shared configuration holds under its key,
/// and a key it lacks keeps the shared value.
pub proof fn lemma_local_overrides_shared(
    shared: Seq<(Seq<char>, TomlView)>,
    local: TomlTable,
    res: Seq<(Seq<char>, TomlView)>,
    k: Seq<char>,
)
    requires
        merged_stage(shared, Some(local), res),
    ensures
        match view_get(local.view_entries(), k) {
            Some(v) => !(v is Table) ==> view_get(res, k) == Some(v),
            None => view_get(res, k) == view_get(shared, k),
        },
{
    let l = local.view_entries();
    crate::value::lemma_view_get_some(l, k);
    if let Some(v) = view_get(l, k) {
        let i = choose|i: int| 0 <= i < l.len() && #[trigger] l[i].0 == k && l[i].1 == v;
        assert(l[i].1 == v);
    }
}

/// Whether an entry of the configuration names a target: its key does not
/// begin with `_` and it holds a table.
pub open spec fn is_environment(e: (Seq<char>, TomlView)) -> bool {
    !(e.0.len() > 0 && e.0[0] == '_') && e.1 is Table
}

/// The names of the targets of a configuration, in key order.
pub open spec fn environment_names(t: Seq<(Seq<char>, TomlView)>) -> Seq<Seq<char>>
    decreases t.len(),
{
    if t.len() == 0 {
        Seq::empty()
    } else {
        environment_names(t.drop_last()) + if is_environment(t.last()) {
            seq![t.last().0]
        } else {
            Seq::empty()
        }
    }
}

/// The targets of a configuration.
pub fn find_environments(config: &TomlTable) -> (res: Vec<String>)
    ensures
        res@.map_values(|s: String| s@) == environment_names(config.view_entries()),
{
    let entries = config.entries();
    let ghost t = config.view_entries();
    proof {
        lemma_entries_view(entries@);
    }
    let mut out: Vec<String> = Vec::new();
    let mut i: usize = 0;
    while i < entries.len()
        invariant
            i <= entries@.len(),
            t == entries_view(entries@),
            t.len() == entries@.len(),
            forall|j: int| 0 <= j < entries@.len() ==> #[trigger] t[j] == (entries@[j].0@, value_view(entries@[j].1)),
            out@.map_values(|s: String| s@) == environment_names(t.take(i as int)),
        decreases entries@.len() - i,
    {
        let ghost before = out@.map_values(|s: String| s@);
        proof {
            assert(t.take(i + 1).drop_last() =~= t.take(i as int));
            assert(t.take(i + 1).last() == t[i as int]);
            reveal_strlit("_");
        }
        let key = &entries[i].0;
        let hidden = crate::text::starts_with(key.as_str(), "_");
        let is_table = match &entries[i].1 {
            TomlValue::Table(_) => true,
            _ => false,
        };
        proof {
            reveal_strlit("_");
            if key@.len() > 0 {
                if key@[0] == '_' {
                    assert(key@.take(1) =~= "_"@);
                } else {
                    assert(key@.take(1)[0] != "_"@[0]);
                }
            }
            assert(hidden == (key@.len() > 0 && key@[0] == '_'));
            assert(t[i as int].0 == key@);
            assert(is_table == (t[i as int].1 is Table));
        }
        if !hidden && is_table {
            out.push(key.clone());
            proof {
                assert(out@.map_values(|s: String| s@) =~= before + seq![key@]);
            }
        } else {
            proof {
                if key@.len() > 0 && key@[0] == '_' {
                    assert(key@.take(1) =~= "_"@);
                }
                assert(out@.map_values(|s: String| s@) =~= before + Seq::<Seq<char>>::empty());
            }
        }
        i = i + 1;
    }
    proof {
        assert(t.take(entries@.len() as int) =~= t);
    }
    out
}

/// The file that names the selected target.
pub fn target_file(root_dir: &FilePath) -> (res: FilePath)
    ensures
        res@ == join_view(root_dir@, ".hitman-target"@),
{
    root_dir.join(".hitman-target")
}

/// The data file, where extracted values and cookies are kept.
pub fn data_file(root_dir: &FilePath) -> (res: FilePath)
    ensures
        res@ == join_view(root_dir@, ".hitman-data.toml"@),
{
    root_dir.join(".hitman-data.toml")
}

/// The shared configuration file.
pub fn config_file(root_dir: &FilePath) -> (res: FilePath)
    ensures
        res@ == join_view(root_dir@, "hitman.toml"@),
{
    root_dir.join("hitman.toml")
}

/// The personal configuration file.
pub fn local_config_file(root_dir: &FilePath) -> (res: FilePath)
    ensures
        res@ == join_view(root_dir@, "hitman.local.toml"@),
{
    root_dir.join("hitman.local.toml")
}

/// The files to watch for changes in watch mode: all the files the request
/// uses except the data file, which would cause loops.
pub fn watch_list(root_dir: &FilePath, resolved: &Resolved) -> (res: Vec<FilePath>)
    ensures
        res@.map_values(|p: FilePath| p@) == seq![
            resolved.requested()@,
            resolved.template()@,
            toml_path_view(resolved.requested()@),
            join_view(root_dir@, ".hitman-target"@),
            join_view(root_dir@, "hitman.toml"@),
            join_view(root_dir@, "hitman.local.toml"@),
        ],
{
    let mut res: Vec<FilePath> = Vec::new();
    res.push(resolved.original_path().duplicate());
    res.push(resolved.http_file().duplicate());
    res.push(resolved.toml_path());
    res.push(target_file(root_dir));
    res.push(config_file(root_dir));
    res.push(local_config_file(root_dir));
    proof {
        assert(res@.map_values(|p: FilePath| p@) =~= seq![
            resolved.requested()@,
            resolved.template()@,
            toml_path_view(resolved.requested()@),
            join_view(root_dir@, ".hitman-target"@),
            join_view(root_dir@, "hitman.toml"@),
            join_view(root_dir@, "hitman.local.toml"@),
        ]);
    }
    res
}

/// The target that a target file's content selects: the content trimmed,
/// or `default` when the file cannot be read.
pub open spec fn target_of(content: Option<Seq<char>>) -> Seq<char> {
    match content {
        Some(c) => trim_spec(c),
        None => "default"@,
    }
}

/// The selected target: the trimmed content of the target file, or
/// `default` when it cannot be read.
pub fn get_target(content: Option<&str>) -> (res: String)
    ensures
        res@ == target_of(
            match content {
                Some(c) => Some(c@),
                None => None,
            },
        ),
{
    match content {
        Some(c) => trim(c),
        None => String::from_str("default"),
    }
}

/// The text the target file holds once `selected` is set as the target:
/// the name itself.
pub fn target_text(selected: &str) -> (res: String)
    ensures
        res@ == selected@,
{
    selected.to_owned()
}

/// The target read back is the one set: once the target file holds the
/// text that `target_text` gives for `selected`, the target is `selected`,
/// trimmed.
pub proof fn lemma_target_round_trip(selected: Seq<char>, written: Seq<char>)
    requires
        written == selected,
    ensures
        target_of(Some(written)) == trim_spec(selected),
{
}

/// What a command line option sets `k` to: its value in the last
/// `k=value` pair given.
pub open spec fn option_value(options: Seq<(String, String)>, k: Seq<char>) -> Option<Seq<char>>
    decreases options.len(),
{
    if options.len() == 0 {
        None
    } else if options.last().0@ == k {
        Some(options.last().1@)
    } else {
        option_value(options.drop_last(), k)
    }
}

/// A global default of the configuration: a value at its top level that
/// is not a table.
pub open spec fn global_get(config: Seq<(Seq<char>, TomlView)>, k: Seq<char>) -> Option<TomlView> {
    match view_get(config, k) {
        Some(TomlView::Table(_)) => None,
        other => other,
    }
}

/// A value of the target's table of the configuration.
pub open spec fn target_get(config: Seq<(Seq<char>, TomlView)>, target: Seq<char>, k: Seq<char>) -> Option<
    TomlView,
> {
    match view_get(config, target) {
        Some(TomlView::Table(t)) => view_get(t, k),
        _ => None,
    }
}

/// The entries of an optional table.
pub open spec fn optional_entries(t: Option<TomlTable>) -> Seq<(Seq<char>, TomlView)> {
    match t {
        Some(t) => t.view_entries(),
        None => Seq::empty(),
    }
}

/// What the scope of a request holds under `k`, by precedence: the command
/// line options, then the data file, then the request's own
/// configuration, then the target's table, then the global defaults.
pub open spec fn scope_get(
    target: Seq<char>,
    config: Seq<(Seq<char>, TomlView)>,
    request: Seq<(Seq<char>, TomlView)>,
    data: Seq<(Seq<char>, TomlView)>,
    options: Seq<(String, String)>,
    k: Seq<char>,
) -> Option<TomlView> {
    match option_value(options, k) {
        Some(v) => Some(TomlView::String(v)),
        None => match view_get(data, k) {
            Some(v) => Some(v),
            None => match view_get(request, k) {
                Some(v) => Some(v),
                None => match target_get(config, target, k) {
                    Some(v) => Some(v),
                    None => global_get(config, k),
                },
            },
        },
    }
}

/// Builds the scope of a request from the merged configuration, the
/// request's own configuration and the data file (each when it exists) and
/// the options given on the command line.
pub fn load_env(
    target: &str,
    config: TomlTable,
    request_config: Option<TomlTable>,
    data: Option<TomlTable>,
    options: &Vec<(String, String)>,
) -> (res: Scope)
    ensures
        forall|k: Seq<char>|
            #[trigger] view_get(res.vars(), k) == scope_get(
                target@,
                config.view_entries(),
                optional_entries(request_config),
                optional_entries(data),
                options@,
                k,
            ),
{
    let ghost cv = config.view_entries();
    let mut table = TomlTable::new();
    let mut target_table: Option<TomlTable> = None;
    let mut rest = config.into_entries();
    let ghost ce = rest@;
    proof {
        lemma_entries_view(ce);
        assert(ce.take(ce.len() as int) =~= ce);
    }
    while rest.len() > 0
        invariant
            cv == entries_view(ce),
            cv.len() == ce.len(),
            forall|i: int| 0 <= i < ce.len() ==> #[trigger] cv[i] == (ce[i].0@, value_view(ce[i].1)),
            keys_sorted(cv),
            rest@ == ce.take(rest@.len() as int),
            rest@.len() <= ce.len(),
            forall|k: Seq<char>|
                #[trigger] view_get(table.view_entries(), k) == global_get(cv.skip(rest@.len() as int), k),
            match target_table {
                Some(t) => view_get(cv.skip(rest@.len() as int), target@) == Some(TomlView::Table(t.view_entries())),
                None => !(view_get(cv.skip(rest@.len() as int), target@) matches Some(TomlView::Table(_))),
            },
        decreases rest@.len(),
    {
        let ghost done = cv.skip(rest@.len() as int);
        let (k, v) = rest.pop().unwrap();
        let ghost n = rest@.len() as int;
        let ghost now = cv.skip(n);
        proof {
            assert(ce[n] == (k, v));
            assert(now[0] == cv[n]);
            assert(now.drop_first() =~= done);
            assert(now[0].0 == k@);
            assert forall|j: int| 0 <= j < done.len() implies #[trigger] done[j].0 != k@ by {
                assert(done[j] == cv[n + 1 + j]);
                assert(crate::value::str_lt(cv[n].0, cv[n + 1 + j].0));
                crate::value::lemma_str_lt_irreflexive(k@);
            }
            crate::value::lemma_view_get_some(done, k@);
        }
        match v {
            TomlValue::Table(t) => {
                if matches!(compare_keys(k.as_str(), target), KeyOrder::Equal) {
                    target_table = Some(t);
                }
            },
            other => {
                table.insert(k, other);
            },
        }
        proof {
            assert forall|key: Seq<char>| #[trigger] view_get(now, key) == if key == k@ {
                Some(now[0].1)
            } else {
                view_get(done, key)
            } by {}
        }
    }
    proof {
        assert(cv.skip(0) =~= cv);
    }
    let ghost globals = table.view_entries();
    if let Some(t) = target_table {
        table.extend(t);
    }
    let ghost with_target = table.view_entries();
    if let Some(r) = request_config {
        table.extend(r);
    }
    let ghost with_request = table.view_entries();
    if let Some(d) = data {
        table.extend(d);
    }
    let ghost with_data = table.view_entries();
    let mut i: usize = 0;
    while i < options.len()
        invariant
            i <= options@.len(),
            forall|k: Seq<char>|
                #[trigger] view_get(table.view_entries(), k) == match option_value(options@.take(i as int), k) {
                    Some(v) => Some(TomlView::String(v)),
                    None => view_get(with_data, k),
                },
        decreases options@.len() - i,
    {
        proof {
            assert(options@.take(i + 1).drop_last() =~= options@.take(i as int));
            assert(options@.take(i + 1).last() == options@[i as int]);
        }
        let key = options[i].0.clone();
        let value = options[i].1.clone();
        table.insert(key, TomlValue::String(value));
        i = i + 1;
    }
    proof {
        assert(options@.take(options@.len() as int) =~= options@);
    }
    Scope::new(table)
}


/// The data file after values were extracted from a response: nothing to
/// write when no value was extracted; otherwise the stored values (an
/// empty table when the file could not be read) with the extracted ones
/// stored over them.
pub fn update_data(state: Option<TomlTable>, vars: TomlTable) -> (res: Option<TomlTable>)
    ensures
        vars.view_entries().len() == 0 <==> res is None,
        res matches Some(r) ==> forall|k: Seq<char>|
            #[trigger] view_get(r.view_entries(), k) == overlay_get(
                optional_entries(state),
                vars.view_entries(),
                k,
            ),
{
    if vars.is_empty() {
        return None;
    }
    let mut table = match state {
        Some(t) => t,
        None => TomlTable::new(),
    };
    table.extend(vars);
    Some(table)
}

/// The table the data file holds, from the file's text: what the text
/// reads as, or an empty table where it is not a TOML document (a file
/// that could not be read counts as empty text).
pub fn data_from_text(content: &str) -> (res: TomlTable)
    ensures
        match toml_parse(content@) {
            Ok(t) => res.view_entries() == t,
            Err(_) => res.view_entries() == Seq::<(Seq<char>, TomlView)>::empty(),
        },
{
    match parse_toml(content) {
        Ok(t) => t,
        Err(_) => TomlTable::new(),
    }
}

/// `str::to_lowercase`, the full Unicode mapping.
pub uninterp spec fn unicode_lowercase(s: Seq<char>) -> Seq<char>;

/// Lower-cases `s` as `str::to_lowercase` does; the result depends on the
/// text alone.
#[verifier::external_body]
fn to_lowercase(s: &str) -> (res: String)
    ensures
        res@ == unicode_lowercase(s@),
{
    s.to_lowercase()
}

/// `s` ends with `suffix`.
pub open spec fn has_suffix(s: Seq<char>, suffix: Seq<char>) -> bool {
    suffix.len() <= s.len() && s.skip(s.len() - suffix.len()) == suffix
}

/// Whether a file is a request: a file name ending, in lower case, with
/// `.http`, `.gql` or `.graphql`, other than the `_graphql.http` template.
pub open spec fn is_request_file_spec(name: Seq<char>) -> bool {
    let lower = unicode_lowercase(name);
    name != "_graphql.http"@ && (has_suffix(lower, ".http"@) || has_suffix(lower, ".gql"@)
        || has_suffix(lower, ".graphql"@))
}

/// Whether the file with this name is a request.
pub fn is_request_file_name(name: &str) -> (res: bool)
    ensures
        res == is_request_file_spec(name@),
{
    if matches!(compare_keys(name, "_graphql.http"), KeyOrder::Equal) {
        return false;
    }
    let lower = to_lowercase(name);
    ends_with(lower.as_str(), ".http") || ends_with(lower.as_str(), ".gql") || ends_with(
        lower.as_str(),
        ".graphql",
    )
}

/// The path of a request relative to the directory that is searched: the
/// last `depth` components of its path.
pub fn relative_request_path(path: &FilePath, depth: usize) -> (res: FilePath)
    requires
        depth <= path@.parts.len(),
    ensures
        res@ == (PathView {
            absolute: false,
            parts: path@.parts.skip(path@.parts.len() - depth),
        }),
{
    let n = path.parts.len();
    let mut parts: Vec<String> = Vec::new();
    let mut i: usize = n - depth;
    while i < n
        invariant
            n - depth <= i <= n,
            n == path.parts@.len(),
            parts@.len() == i - (n - depth),
            forall|j: int| 0 <= j < parts@.len() ==> #[trigger] parts@[j] == path.parts@[n - depth + j],
        decreases n - i,
    {
        parts.push(path.parts[i].clone());
        i = i + 1;
    }
    let res = FilePath { absolute: false, parts };
    proof {
        assert(res@.parts =~= path@.parts.skip(path@.parts.len() - depth));
    }
    res
}

/// The data-file entries that keep `cookies`, as a view.
pub open spec fn cookie_entries(cookies: Seq<Seq<char>>) -> TomlView {
    TomlView::Array(cookies.map_values(|c: Seq<char>| TomlView::String(c)))
}

/// The table a jar writes to the data file when a response sets
/// `cookies`, from the file's current text: what the file holds (an empty
/// table where it is not a TOML document) with the list of cookies stored
/// over its `Cookies` entry.
pub fn cookies_stored(content: &str, cookies: Vec<String>) -> (res: TomlTable)
    ensures
        forall|k: Seq<char>|
            #[trigger] view_get(res.view_entries(), k) == if k == cookie_key() {
                Some(cookie_entries(cookies@.map_values(|c: String| c@)))
            } else {
                match toml_parse(content@) {
                    Ok(t) => view_get(t, k),
                    Err(_) => None,
                }
            },
{
    let ghost all = cookies@.map_values(|c: String| c@);
    let state = data_from_text(content);
    let vars = cookie_table(cookies);
    proof {
        assert(all.map_values(|c: Seq<char>| TomlView::String(c)) =~= cookies@.map_values(
            |c: String| TomlView::String(c@),
        ));
    }
    let mut table = state;
    table.extend(vars);
    table
}

/// The `Cookie` header a jar sends, from the data file's text: nothing
/// where the text is not a TOML document or holds no list of cookies.
pub fn cookies_from_text(content: &str) -> (res: Option<String>)
    ensures
        match toml_parse(content@) {
            Ok(t) => match cookie_header_spec(t) {
                Some(h) => res matches Some(r) && r@ == h,
                None => res is None,
            },
            Err(_) => res is None,
        },
{
    match parse_toml(content) {
        Ok(data) => cookie_header(&data),
        Err(_) => None,
    }
}

/// The `name=value` pairs of the cookies that parse, in order.
pub open spec fn cookie_pairs(cookies: Seq<Seq<char>>) -> Seq<Seq<char>>
    decreases cookies.len(),
{
    if cookies.len() == 0 {
        Seq::empty()
    } else {
        cookie_pairs(cookies.drop_last()) + match cookie_pair_spec(cookies.last()) {
            Some((n, v)) => seq![n + "="@ + v],
            None => Seq::empty(),
        }
    }
}

proof fn lemma_cookie_pairs(cookies: Seq<Seq<char>>)
    ensures
        cookie_pieces(cookies.map_values(|c: Seq<char>| TomlView::String(c))) == cookie_pairs(cookies),
    decreases cookies.len(),
{
    if cookies.len() > 0 {
        let items = cookies.map_values(|c: Seq<char>| TomlView::String(c));
        assert(items.drop_last() =~= cookies.drop_last().map_values(|c: Seq<char>| TomlView::String(c)));
        lemma_cookie_pairs(cookies.drop_last());
    }
}

/// The `Cookie` header of the table that `cookie_table` makes of the
/// cookies a response set is the `name=value` pairs of those that parse,
/// in order, joined by `; `.
pub proof fn lemma_cookie_table_header(cookies: Seq<Seq<char>>, table: Seq<(Seq<char>, TomlView)>)
    requires
        forall|k: Seq<char>|
            #[trigger] view_get(table, k) == if k == cookie_key() {
                Some(cookie_entries(cookies))
            } else {
                None::<TomlView>
            },
    ensures
        cookie_header_spec(table) == Some(join_spec(cookie_pairs(cookies), "; "@)),
{
    lemma_cookie_pairs(cookies);
    assert(view_get(table, cookie_key()) == Some(cookie_entries(cookies)));
}

/// Each response's cookies replace those stored before: after the
/// cookies `first`, then the cookies `second`, are stored over a data
/// file, the `Cookie` header is made of `second` alone.
pub proof fn lemma_later_cookies_replace(
    state: Seq<(Seq<char>, TomlView)>,
    first: Seq<Seq<char>>,
    second: Seq<Seq<char>>,
    after_first: Seq<(Seq<char>, TomlView)>,
    after_second: Seq<(Seq<char>, TomlView)>,
)
    requires
        forall|k: Seq<char>|
            #[trigger] view_get(after_first, k) == if k == cookie_key() {
                Some(cookie_entries(first))
            } else {
                view_get(state, k)
            },
        forall|k: Seq<char>|
            #[trigger] view_get(after_second, k) == if k == cookie_key() {
                Some(cookie_entries(second))
            } else {
                view_get(after_first, k)
            },
    ensures
        cookie_header_spec(after_second) == Some(join_spec(cookie_pairs(second), "; "@)),
{
    lemma_cookie_pairs(second);
    assert(view_get(after_second, cookie_key()) == Some(cookie_entries(second)));
}

/// What a jar stores it sends back: when a response set `cookies` and the
/// data file's text `written` reads as a table that keeps them, as the one
/// `cookies_stored` makes does (whatever the file held before, so each
/// response's cookies replace those stored earlier), the `Cookie` header
/// that `cookies_from_text` makes of that text is made of exactly those
/// cookies that parse, as `name=value`, in order, joined by `; `.
pub proof fn lemma_cookie_round_trip(
    stored: Seq<(Seq<char>, TomlView)>,
    cookies: Seq<Seq<char>>,
    written: Seq<char>,
)
    requires
        view_get(stored, cookie_key()) == Some(cookie_entries(cookies)),
        toml_parse(written) == Ok::<Seq<(Seq<char>, TomlView)>, Seq<char>>(stored),
    ensures
        toml_parse(written) matches Ok(t) && cookie_header_spec(t) == Some(
            join_spec(cookie_pairs(cookies), "; "@),
        ),
{
    lemma_cookie_pairs(cookies);
}

/// Cookies that a response sets are sent with the next requests: once the
/// entries of `cookie_table(cookies)` are stored over any data file
/// (`update_data`), the `Cookie` header is made of exactly those cookies,
/// each that parses as `name=value`, in order.
pub proof fn lemma_cookies_sent_back(
    state: Seq<(Seq<char>, TomlView)>,
    vars: Seq<(Seq<char>, TomlView)>,
    data: Seq<(Seq<char>, TomlView)>,
    cookies: Seq<Seq<char>>,
)
    requires
        forall|k: Seq<char>|
            #[trigger] view_get(vars, k) == if k == cookie_key() {
                Some(TomlView::Array(cookies.map_values(|c: Seq<char>| TomlView::String(c))))
            } else {
                None::<TomlView>
            },
        forall|k: Seq<char>| #[trigger] view_get(data, k) == overlay_get(state, vars, k),
    ensures
        cookie_header_spec(data) == Some(
            join_spec(cookie_pairs(cookies), "; "@),
        ),
{
    lemma_cookie_pairs(cookies);
    assert(view_get(data, cookie_key()) == overlay_get(state, vars, cookie_key()));
    assert(view_get(vars, cookie_key()) == Some(
        TomlView::Array(cookies.map_values(|c: Seq<char>| TomlView::String(c))),
    ));
}

} // verus!
