//! Reading module-resolution hints out of `tsconfig.json`/`jsconfig.json` contents: path
//! normalization relative to the repository root, the `compilerOptions` of a parsed config,
//! the candidate files of an `extends`, and the assembly of all configs into one.
use vstd::prelude::*;
use crate::investigation::{AliasView, ModuleResolutionConfig, PathAliasRule, ScopedModuleResolution, ScopedView, last_index};
use crate::jsonc::{drop_commas_from, merge_configs, merge_rules, strip_from, strip_jsonc_comments, strip_trailing_commas, ResolvedModuleConfig, ScanMode};
use crate::paths::{fold_segments, fold_segments_exec, join_exec, split_all, split_exec};
use crate::rank::{card_views, RankKey};
use crate::text::{append_chars, from_chars, join_with, replace_char, replace_char_exec, str_eq, to_chars, views};

verus! {

broadcast use vstd::seq::group_seq_axioms;

// ---------------------------------------------------------------------------
// Paths
// ---------------------------------------------------------------------------

/// The normal components of a path (`.` and empty ones dropped, `..` popping the last).
pub open spec fn path_segments(p: Seq<char>) -> Seq<Seq<char>> {
    fold_segments(split_all(p, '/'))
}

/// Whether a path is absolute.
pub open spec fn is_absolute(p: Seq<char>) -> bool {
    p.len() > 0 && p[0] == '/'
}

/// A path normalized component by component: `.` dropped, `..` popping the previous component
/// (never past the root), the root kept.
pub open spec fn normalized_path(p: Seq<char>) -> Seq<char> {
    if is_absolute(p) {
        seq!['/'] + join_with(path_segments(p), seq!['/'])
    } else {
        join_with(path_segments(p), seq!['/'])
    }
}

/// Normalizing is idempotent, and a normalized path is absolute exactly when the path was.
pub proof fn lemma_normalized_path_idempotent(p: Seq<char>)
    ensures
        normalized_path(normalized_path(p)) == normalized_path(p),
        is_absolute(normalized_path(p)) == is_absolute(p),
        path_segments(normalized_path(p)) == path_segments(p),
{
    let segs = path_segments(p);
    crate::paths::lemma_split_pieces_no_sep(p, '/', p.len() as int);
    crate::paths::lemma_fold_gives_normal(split_all(p, '/'));
    let j = join_with(segs, seq!['/']);
    let n = normalized_path(p);
    if segs.len() == 0 {
        assert(j == Seq::<char>::empty());
        assert(split_all(Seq::<char>::empty(), '/') =~= seq![Seq::<char>::empty()]);
        crate::paths::lemma_fold_leading_empty(Seq::<Seq<char>>::empty());
        assert(seq![Seq::<char>::empty()] + Seq::<Seq<char>>::empty() =~= seq![Seq::<char>::empty()]);
        if is_absolute(p) {
            assert(n =~= seq!['/'] + Seq::<char>::empty());
            crate::paths::lemma_split_leading_sep(Seq::<char>::empty());
            crate::paths::lemma_fold_leading_empty(seq![Seq::<char>::empty()]);
        } else {
            assert(n == Seq::<char>::empty());
        }
    } else {
        crate::paths::lemma_split_join(segs);
        crate::paths::lemma_fold_normal(segs);
        crate::paths::lemma_join_starts_with_first(segs, seq!['/']);
        assert(crate::paths::normal_segment(segs[0]));
        assert(j[0] == segs[0][0]);
        assert(j[0] != '/') by {
            if j[0] == '/' {
                assert(segs[0].contains(segs[0][0]));
            }
        }
        if is_absolute(p) {
            crate::paths::lemma_split_leading_sep(j);
            crate::paths::lemma_fold_leading_empty(segs);
        }
    }
}

/// `Path::join`: an absolute part replaces the base.
pub open spec fn path_join(base: Seq<char>, part: Seq<char>) -> Seq<char> {
    if is_absolute(part) {
        part
    } else {
        crate::repo::join_path(base, part)
    }
}

/// `Path::strip_prefix` on normalized paths: `p` relative to `base` when `base`'s components
/// begin `p`'s.
pub open spec fn strip_path_prefix(p: Seq<char>, base: Seq<char>) -> Option<Seq<char>> {
    let ps = path_segments(p);
    let bs = path_segments(base);
    if !is_absolute(base) && bs.len() == 0 {
        Some(p)
    } else if is_absolute(p) == is_absolute(base) && bs.len() <= ps.len() && ps.subrange(0, bs.len() as int) == bs {
        Some(join_with(ps.subrange(bs.len() as int, ps.len() as int), seq!['/']))
    } else {
        None
    }
}

/// `value` resolved against `base_dir`, relative to the repository root, with `/` separators;
/// `None` when it lies outside the root.
pub open spec fn repo_relative(base_dir: Seq<char>, root: Seq<char>, value: Seq<char>) -> Option<Seq<char>> {
    match strip_path_prefix(normalized_path(path_join(base_dir, value)), root) {
        Some(r) => Some(replace_char(r, '\\', '/')),
        None => None,
    }
}

fn path_join_exec(base: &Vec<char>, part: &Vec<char>) -> (r: Vec<char>)
    ensures
        r@ == path_join(base@, part@),
{
    if part.len() > 0 && part[0] == '/' {
        return crate::text::copy_chars(part);
    }
    let mut out = crate::text::copy_chars(base);
    if !(base.len() == 0 || base[base.len() - 1] == '/') {
        out.push('/');
    }
    append_chars(&mut out, part);
    out
}

fn segments_exec(p: &Vec<char>) -> (r: Vec<Vec<char>>)
    ensures
        r@.map_values(|v: Vec<char>| v@) == path_segments(p@),
{
    let segs = split_exec(p, '/');
    fold_segments_exec(segs)
}

fn slash() -> (r: Vec<char>)
    ensures
        r@ == seq!['/'],
{
    let mut v: Vec<char> = Vec::new();
    v.push('/');
    assert(v@ =~= seq!['/']);
    v
}

/// Exec: `normalized_path`.
pub fn normalize_path(p: &str) -> (r: String)
    ensures
        r@ == normalized_path(p@),
{
    let v = to_chars(p);
    let segs = segments_exec(&v);
    let joined = join_exec(&segs, &slash());
    if v.len() > 0 && v[0] == '/' {
        let mut out = slash();
        append_chars(&mut out, &joined);
        from_chars(out.as_slice())
    } else {
        from_chars(joined.as_slice())
    }
}

fn strip_path_prefix_exec(p: &Vec<char>, base: &Vec<char>) -> (r: Option<Vec<char>>)
    ensures
        match r {
            Some(x) => strip_path_prefix(p@, base@) == Some(x@),
            None => strip_path_prefix(p@, base@) is None,
        },
{
    let ps = segments_exec(p);
    let bs = segments_exec(base);
    let ghost psv = ps@.map_values(|v: Vec<char>| v@);
    let ghost bsv = bs@.map_values(|v: Vec<char>| v@);
    let p_abs = p.len() > 0 && p[0] == '/';
    let b_abs = base.len() > 0 && base[0] == '/';
    if !b_abs && bs.len() == 0 {
        return Some(crate::text::copy_chars(p));
    }
    if p_abs != b_abs || bs.len() > ps.len() {
        return None;
    }
    let mut i: usize = 0;
    while i < bs.len()
        invariant
            0 <= i <= bs.len(),
            bs.len() <= ps.len(),
            psv == ps@.map_values(|v: Vec<char>| v@),
            bsv == bs@.map_values(|v: Vec<char>| v@),
            forall|j: int| 0 <= j < i ==> psv[j] == bsv[j],
            psv == path_segments(p@),
            bsv == path_segments(base@),
            p_abs == is_absolute(p@),
            b_abs == is_absolute(base@),
            !(!b_abs && bsv.len() == 0),
            p_abs == b_abs,
        decreases bs.len() - i,
    {
        if !crate::text::chars_eq(&ps[i], &bs[i]) {
            assert(psv.subrange(0, bsv.len() as int)[i as int] != bsv[i as int]);
            assert(psv.subrange(0, bsv.len() as int) != bsv);
            return None;
        }
        i = i + 1;
    }
    assert(psv.subrange(0, bsv.len() as int) =~= bsv);
    let mut rest: Vec<Vec<char>> = Vec::new();
    let mut k: usize = bs.len();
    while k < ps.len()
        invariant
            bs.len() <= k <= ps.len(),
            psv == ps@.map_values(|v: Vec<char>| v@),
            rest@.map_values(|v: Vec<char>| v@) == psv.subrange(bs@.len() as int, k as int),
        decreases ps.len() - k,
    {
        let c = crate::text::copy_chars(&ps[k]);
        let ghost pre = rest@;
        rest.push(c);
        assert(rest@.map_values(|v: Vec<char>| v@) =~= pre.map_values(|v: Vec<char>| v@).push(c@));
        assert(psv[k as int] == c@);
        assert(psv.subrange(bs@.len() as int, k + 1) =~= psv.subrange(bs@.len() as int, k as int).push(psv[k as int]));
        k = k + 1;
        assert(rest@.map_values(|v: Vec<char>| v@) =~= psv.subrange(bs@.len() as int, k as int));
    }
    Some(join_exec(&rest, &slash()))
}

/// Exec: `repo_relative`.
pub fn normalize_repo_relative(base_dir: &str, repo_root: &str, value: &str) -> (r: Option<String>)
    ensures
        opt_string(r) == repo_relative(base_dir@, repo_root@, value@),
{
    let joined = path_join_exec(&to_chars(base_dir), &to_chars(value));
    let normalized = normalize_path(from_chars(joined.as_slice()).as_str());
    match strip_path_prefix_exec(&to_chars(normalized.as_str()), &to_chars(repo_root)) {
        Some(rel) => {
            let fixed = replace_char_exec(&rel, '\\', '/');
            Some(from_chars(fixed.as_slice()))
        },
        None => None,
    }
}

/// The view of an optional string.
pub open spec fn opt_string(o: Option<String>) -> Option<Seq<char>> {
    crate::types::opt_view(o)
}

/// `Path::parent` of a normalized path.
pub open spec fn path_parent(p: Seq<char>) -> Option<Seq<char>> {
    if p.len() == 0 || p == seq!['/'] {
        None
    } else {
        match last_index(p, '/') {
            Some(i) => if i == 0 {
                Some(seq!['/'])
            } else {
                Some(p.subrange(0, i))
            },
            None => Some(Seq::empty()),
        }
    }
}

/// Exec: `path_parent`.
pub fn parent_path(p: &str) -> (r: Option<String>)
    ensures
        opt_string(r) == path_parent(p@),
{
    let v = to_chars(p);
    if v.len() == 0 || (v.len() == 1 && v[0] == '/') {
        proof {
            if v@.len() == 1 {
                assert(v@ =~= seq!['/']);
            }
        }
        return None;
    }
    proof {
        if v@.len() == 1 {
            assert(v@ != seq!['/']);
        }
    }
    let mut i: usize = v.len();
    assert(v@.subrange(0, i as int) =~= v@);
    while i > 0
        invariant
            0 <= i <= v.len(),
            v@ == p@,
            v@.len() > 0 && v@ != seq!['/'],
            last_index(v@, '/') == last_index(v@.subrange(0, i as int), '/'),
        decreases i,
    {
        if v[i - 1] == '/' {
            assert(v@.subrange(0, i as int).last() == '/');
            if i - 1 == 0 {
                return Some(from_chars(slash().as_slice()));
            }
            return Some(from_chars(crate::text::sub_chars(&v, 0, i - 1).as_slice()));
        }
        assert(v@.subrange(0, i as int).drop_last() =~= v@.subrange(0, i - 1));
        i = i - 1;
    }
    Some(String::new())
}

/// The scope directory of a config: its directory relative to the repository root.
pub open spec fn scope_dir_of(config_dir: Seq<char>, root: Seq<char>) -> Option<Seq<char>> {
    match strip_path_prefix(normalized_path(config_dir), root) {
        Some(r) => Some(replace_char(r, '\\', '/')),
        None => None,
    }
}

/// Exec: `scope_dir_of`.
pub fn normalize_scope_dir(config_dir: &str, repo_root: &str) -> (r: Option<String>)
    ensures
        opt_string(r) == scope_dir_of(config_dir@, repo_root@),
{
    let normalized = normalize_path(config_dir);
    match strip_path_prefix_exec(&to_chars(normalized.as_str()), &to_chars(repo_root)) {
        Some(rel) => Some(from_chars(replace_char_exec(&rel, '\\', '/').as_slice())),
        None => None,
    }
}

// ---------------------------------------------------------------------------
// Parsed config contents
// ---------------------------------------------------------------------------

/// A parsed JSON value.
pub enum JsonValue {
    Null,
    Bool(bool),
    /// A number, as written.
    Number(String),
    Str(String),
    Array(Vec<JsonValue>),
    /// An object's members, in order.
    Object(Vec<(String, JsonValue)>),
}

#[verifier::external_type_specification]
#[verifier::external_body]
pub struct ExSerdeJsonValue(serde_json::Value);

/// What `serde_json::from_str` parses out of a text as a `serde_json::Value`, converted to a
/// `JsonValue` (`None` when the text is not JSON).
pub uninterp spec fn spec_json(text: Seq<char>) -> Option<JsonValue>;

/// Converts a `serde_json::Value` variant for variant; a number keeps the text its `Display`
/// writes, an object its members in the map's order.
#[verifier::external_body]
fn json_value_of(v: serde_json::Value) -> (r: JsonValue) {
    match v {
        serde_json::Value::Null => JsonValue::Null,
        serde_json::Value::Bool(b) => JsonValue::Bool(b),
        serde_json::Value::Number(n) => JsonValue::Number(n.to_string()),
        serde_json::Value::String(s) => JsonValue::Str(s),
        serde_json::Value::Array(items) => JsonValue::Array(items.into_iter().map(json_value_of).collect()),
        serde_json::Value::Object(map) => JsonValue::Object(map.into_iter().map(|(k, x)| (k, json_value_of(x))).collect()),
    }
}

/// Calls `serde_json::from_str` for a `serde_json::Value` and converts the value; `None` when
/// the text is not JSON. The result is a function of the text alone.
#[verifier::external_body]
fn json_from_str(text: &str) -> (r: Option<JsonValue>)
    ensures
        r == spec_json(text@),
{
    serde_json::from_str::<serde_json::Value>(text).ok().map(json_value_of)
}

/// Parse a config written as JSON with comments: comments and trailing commas removed, then
/// parsed as JSON (`None` when that fails).
pub fn parse_jsonc_value(source: &str) -> (r: Option<JsonValue>)
    ensures
        r == spec_json(drop_commas_from(strip_from(source@, ScanMode::Code), ScanMode::Code)),
{
    let without_comments = strip_jsonc_comments(source);
    let normalized = strip_trailing_commas(without_comments.as_str());
    json_from_str(normalized.as_str())
}

/// The value of the first member named `key`.
pub open spec fn member(entries: Seq<(String, JsonValue)>, key: Seq<char>) -> Option<JsonValue>
    decreases entries.len(),
{
    if entries.len() == 0 {
        None
    } else if entries[0].0@ == key {
        Some(entries[0].1)
    } else {
        member(entries.drop_first(), key)
    }
}

/// `Value::get` with a string key: the member of an object, `None` for anything else.
pub open spec fn json_get(v: JsonValue, key: Seq<char>) -> Option<JsonValue> {
    match v {
        JsonValue::Object(entries) => member(entries@, key),
        _ => None,
    }
}

/// Exec: `json_get`.
pub fn get<'a>(v: &'a JsonValue, key: &str) -> (r: Option<&'a JsonValue>)
    ensures
        match r {
            Some(x) => json_get(*v, key@) == Some(*x),
            None => json_get(*v, key@) is None,
        },
{
    match v {
        JsonValue::Object(entries) => {
            let mut i: usize = 0;
            assert(entries@.skip(0) =~= entries@);
            assert(json_get(*v, key@) == member(entries@, key@));
            while i < entries.len()
                invariant
                    0 <= i <= entries.len(),
                    json_get(*v, key@) == member(entries@, key@),
                    member(entries@, key@) == member(entries@.skip(i as int), key@),
                decreases entries.len() - i,
            {
                assert(entries@.skip(i as int)[0] == entries@[i as int]);
                if str_eq(entries[i].0.as_str(), key) {
                    assert(member(entries@.skip(i as int), key@) == Some(entries@[i as int].1));
                    return Some(&entries[i].1);
                }
                assert(entries@.skip(i as int).drop_first() =~= entries@.skip(i + 1));
                i = i + 1;
            }
            None
        },
        _ => None,
    }
}

/// The `extends` of a config, when it is a string.
pub open spec fn extends_of(json: JsonValue) -> Option<Seq<char>> {
    match json_get(json, "extends"@) {
        Some(JsonValue::Str(s)) => Some(s@),
        _ => None,
    }
}

/// Exec: `extends_of`.
pub fn config_extends(json: &JsonValue) -> (r: Option<String>)
    ensures
        opt_string(r) == extends_of(*json),
{
    match get(json, "extends") {
        Some(JsonValue::Str(s)) => Some(s.clone()),
        _ => None,
    }
}

/// The repo-relative targets among the string items of a `paths` entry.
pub open spec fn alias_targets(items: Seq<JsonValue>, dir: Seq<char>, root: Seq<char>) -> Seq<Seq<char>>
    decreases items.len(),
{
    if items.len() == 0 {
        Seq::empty()
    } else {
        let prev = alias_targets(items.drop_last(), dir, root);
        match items.last() {
            JsonValue::Str(t) => match repo_relative(dir, root, t@) {
                Some(x) => prev.push(x),
                None => prev,
            },
            _ => prev,
        }
    }
}

/// The alias rules of a `paths` object: one per member with at least one target.
pub open spec fn alias_rules(entries: Seq<(String, JsonValue)>, dir: Seq<char>, root: Seq<char>) -> Seq<AliasView>
    decreases entries.len(),
{
    if entries.len() == 0 {
        Seq::empty()
    } else {
        let prev = alias_rules(entries.drop_last(), dir, root);
        let targets = match entries.last().1 {
            JsonValue::Array(items) => alias_targets(items@, dir, root),
            _ => Seq::empty(),
        };
        if targets.len() > 0 {
            prev.push(AliasView { pattern: entries.last().0@, targets })
        } else {
            prev
        }
    }
}

/// The baseUrl of `compilerOptions`, repo-relative.
pub open spec fn base_url_of(json: JsonValue, dir: Seq<char>, root: Seq<char>) -> Option<Seq<char>> {
    match json_get(json, "compilerOptions"@) {
        Some(opts) => match json_get(opts, "baseUrl"@) {
            Some(JsonValue::Str(b)) => repo_relative(dir, root, b@),
            _ => None,
        },
        None => None,
    }
}

/// The path alias rules of `compilerOptions`, repo-relative.
pub open spec fn paths_of(json: JsonValue, dir: Seq<char>, root: Seq<char>) -> Seq<AliasView> {
    match json_get(json, "compilerOptions"@) {
        Some(opts) => match json_get(opts, "paths"@) {
            Some(JsonValue::Object(entries)) => alias_rules(entries@, dir, root),
            _ => Seq::empty(),
        },
        None => Seq::empty(),
    }
}

fn alias_targets_exec(items: &Vec<JsonValue>, dir: &str, root: &str) -> (r: Vec<String>)
    ensures
        views(r@) == alias_targets(items@, dir@, root@),
{
    let mut out: Vec<String> = Vec::new();
    let mut i: usize = 0;
    while i < items.len()
        invariant
            0 <= i <= items.len(),
            views(out@) == alias_targets(items@.subrange(0, i as int), dir@, root@),
        decreases items.len() - i,
    {
        proof {
            assert(items@.subrange(0, i + 1).drop_last() =~= items@.subrange(0, i as int));
            assert(items@.subrange(0, i + 1).last() == items@[i as int]);
        }
        match &items[i] {
            JsonValue::Str(t) => match normalize_repo_relative(dir, root, t.as_str()) {
                Some(x) => {
                    proof {
                        crate::text::lemma_views_push(out@, x);
                    }
                    out.push(x);
                },
                None => {},
            },
            _ => {},
        }
        i = i + 1;
    }
    assert(items@.subrange(0, i as int) =~= items@);
    out
}

/// Read the module-resolution settings of one parsed config in directory `config_dir`.
pub fn extract_compiler_options(repo_root: &str, config_dir: &str, json: &JsonValue) -> (r: ResolvedModuleConfig)
    ensures
        opt_string(r.tsconfig_base_url) == base_url_of(*json, config_dir@, repo_root@),
        card_views(r.tsconfig_paths@) == paths_of(*json, config_dir@, repo_root@),
{
    let opts = get(json, "compilerOptions");
    let base = match opts {
        Some(o) => match get(o, "baseUrl") {
            Some(JsonValue::Str(b)) => normalize_repo_relative(config_dir, repo_root, b.as_str()),
            _ => None,
        },
        None => None,
    };
    let mut rules: Vec<PathAliasRule> = Vec::new();
    match opts {
        Some(o) => match get(o, "paths") {
            Some(JsonValue::Object(entries)) => {
                let mut i: usize = 0;
                while i < entries.len()
                    invariant
                        0 <= i <= entries.len(),
                        card_views(rules@) == alias_rules(entries@.subrange(0, i as int), config_dir@, repo_root@),
                    decreases entries.len() - i,
                {
                    proof {
                        assert(entries@.subrange(0, i + 1).drop_last() =~= entries@.subrange(0, i as int));
                        assert(entries@.subrange(0, i + 1).last() == entries@[i as int]);
                    }
                    let targets = match &entries[i].1 {
                        JsonValue::Array(items) => alias_targets_exec(items, config_dir, repo_root),
                        _ => Vec::new(),
                    };
                    if targets.len() > 0 {
                        let rule = PathAliasRule { pattern: entries[i].0.clone(), targets };
                        let ghost pre = rules@;
                        rules.push(rule);
                        assert(card_views(rules@) =~= card_views(pre).push(rule@));
                    }
                    i = i + 1;
                }
                assert(entries@.subrange(0, i as int) =~= entries@);
            },
            _ => {},
        },
        None => {},
    }
    ResolvedModuleConfig { tsconfig_base_url: base, tsconfig_paths: rules }
}


// ---------------------------------------------------------------------------
// Extends chains
// ---------------------------------------------------------------------------

/// A file name with its extension replaced (or added) by `json`, as `Path::with_extension`
/// does: the stem is what precedes the last `.`, unless that `.` starts the name.
pub open spec fn json_name(f: Seq<char>) -> Seq<char> {
    let stem = match crate::paths::last_dot(f) {
        Some(i) => if i > 0 {
            f.subrange(0, i)
        } else {
            f
        },
        None => f,
    };
    stem + ".json"@
}

/// `Path::with_extension("json")` of the normalized form of `x`; a path without a file name
/// is left as it is.
pub open spec fn json_candidate(x: Seq<char>) -> Seq<char> {
    let segs = path_segments(x);
    if segs.len() == 0 {
        normalized_path(x)
    } else {
        let named = join_with(segs.drop_last().push(json_name(segs.last())), seq!['/']);
        if is_absolute(x) {
            seq!['/'] + named
        } else {
            named
        }
    }
}

/// The directories searched for a package `extends`: the config's directory and its ancestors,
/// up to the repository root (or the filesystem root), nearest first.
pub open spec fn search_dirs(dir: Seq<char>, root: Seq<char>) -> Seq<Seq<char>>
    decreases dir.len(),
{
    if dir == root {
        seq![dir]
    } else {
        match path_parent(dir) {
            Some(parent) => if parent.len() < dir.len() {
                seq![dir] + search_dirs(parent, root)
            } else {
                seq![dir]
            },
            None => seq![dir],
        }
    }
}

/// Package candidates under `node_modules` of each directory, each as written and then with a
/// `.json` extension.
pub open spec fn package_candidates(dirs: Seq<Seq<char>>, extends: Seq<char>) -> Seq<Seq<char>>
    decreases dirs.len(),
{
    if dirs.len() == 0 {
        Seq::empty()
    } else {
        let x = path_join(path_join(dirs[0], "node_modules"@), extends);
        seq![normalized_path(x), json_candidate(x)] + package_candidates(dirs.drop_first(), extends)
    }
}

/// The files an `extends` may name, in the order they are tried (the first that exists wins):
/// a relative or absolute one resolved against the config's directory, else the package under
/// `node_modules` of each searched directory; each as written, then with a `.json` extension.
pub open spec fn extends_candidates(root: Seq<char>, dir: Seq<char>, extends: Seq<char>) -> Seq<Seq<char>> {
    if extends.len() > 0 && (extends[0] == '.' || extends[0] == '/') {
        let x = path_join(dir, extends);
        seq![normalized_path(x), json_candidate(x)]
    } else {
        package_candidates(search_dirs(dir, root), extends)
    }
}

fn json_name_exec(f: &Vec<char>) -> (r: Vec<char>)
    ensures
        r@ == json_name(f@),
{
    let mut j: usize = f.len();
    while j > 0 && f[j - 1] != '.'
        invariant
            0 <= j <= f.len(),
            forall|k: int| j <= k < f@.len() ==> f@[k] != '.',
        decreases j,
    {
        j = j - 1;
    }
    proof {
        if j > 0 {
            assert(exists|i: int| 0 <= i < f@.len() && f@[i] == '.') by {
                assert(f@[j - 1] == '.');
            }
            let w = crate::paths::last_dot(f@)->Some_0;
            assert(0 <= w < f@.len() && f@[w] == '.' && forall|q: int| w < q < f@.len() ==> f@[q] != '.');
            if w < j - 1 {
                assert(f@[j - 1] != '.');
            }
            assert(w == j - 1);
        } else {
            assert(!(exists|i: int| 0 <= i < f@.len() && f@[i] == '.'));
        }
    }
    let stem_end = if j > 1 { j - 1 } else { f.len() };
    let mut out = crate::text::sub_chars(f, 0, stem_end);
    append_chars(&mut out, &to_chars(".json"));
    proof {
        assert(f@.subrange(0, f@.len() as int) =~= f@);
    }
    out
}

fn json_candidate_exec(x: &Vec<char>) -> (r: Vec<char>)
    ensures
        r@ == json_candidate(x@),
{
    let segs = segments_exec(x);
    let ghost sv = segs@.map_values(|v: Vec<char>| v@);
    if segs.len() == 0 {
        let n = normalize_path(from_chars(x.as_slice()).as_str());
        return to_chars(n.as_str());
    }
    let mut parts: Vec<Vec<char>> = Vec::new();
    let mut i: usize = 0;
    while i + 1 < segs.len()
        invariant
            0 <= i < segs.len(),
            sv == segs@.map_values(|v: Vec<char>| v@),
            parts@.map_values(|v: Vec<char>| v@) == sv.subrange(0, i as int),
        decreases segs.len() - i,
    {
        let c = crate::text::copy_chars(&segs[i]);
        let ghost pre = parts@;
        parts.push(c);
        assert(parts@.map_values(|v: Vec<char>| v@) =~= pre.map_values(|v: Vec<char>| v@).push(c@));
        assert(sv.subrange(0, i + 1) =~= sv.subrange(0, i as int).push(sv[i as int]));
        i = i + 1;
    }
    let last = json_name_exec(&segs[segs.len() - 1]);
    let ghost pre = parts@;
    parts.push(last);
    assert(parts@.map_values(|v: Vec<char>| v@) =~= pre.map_values(|v: Vec<char>| v@).push(last@));
    assert(sv.subrange(0, i as int) =~= sv.drop_last());
    let named = join_exec(&parts, &slash());
    if x.len() > 0 && x[0] == '/' {
        let mut out = slash();
        append_chars(&mut out, &named);
        out
    } else {
        named
    }
}

fn push_string(out: &mut Vec<String>, v: &Vec<char>)
    ensures
        views(final(out)@) == views(old(out)@).push(v@),
{
    let s = from_chars(v.as_slice());
    proof {
        crate::text::lemma_views_push(out@, s);
    }
    out.push(s);
}

/// Exec: `extends_candidates`.
pub fn resolve_extends_candidates(repo_root: &str, config_dir: &str, extends: &str) -> (r: Vec<String>)
    ensures
        views(r@) == extends_candidates(repo_root@, config_dir@, extends@),
{
    let ev = to_chars(extends);
    let mut out: Vec<String> = Vec::new();
    if ev.len() > 0 && (ev[0] == '.' || ev[0] == '/') {
        let x = path_join_exec(&to_chars(config_dir), &ev);
        let n = normalize_path(from_chars(x.as_slice()).as_str());
        push_string(&mut out, &to_chars(n.as_str()));
        push_string(&mut out, &json_candidate_exec(&x));
        assert(views(out@) =~= extends_candidates(repo_root@, config_dir@, extends@));
        return out;
    }
    let root = to_chars(repo_root);
    let mut dir = to_chars(config_dir);
    let ghost all = package_candidates(search_dirs(config_dir@, repo_root@), extends@);
    assert(views(out@) + package_candidates(search_dirs(dir@, repo_root@), extends@) =~= all);
    let mut done = false;
    while !done
        invariant
            root@ == repo_root@,
            ev@ == extends@,
            !done ==> views(out@) + package_candidates(search_dirs(dir@, repo_root@), extends@) == all,
            done ==> views(out@) == all,
        decreases dir@.len() + (if done { 0int } else { 1int }),
    {
        let x = path_join_exec(&path_join_exec(&dir, &to_chars("node_modules")), &ev);
        let n = normalize_path(from_chars(x.as_slice()).as_str());
        let ghost before = views(out@);
        push_string(&mut out, &to_chars(n.as_str()));
        push_string(&mut out, &json_candidate_exec(&x));
        let ghost sd = search_dirs(dir@, repo_root@);
        assert(sd[0] == dir@);
        assert(package_candidates(sd, extends@) =~= seq![normalized_path(x@), json_candidate(x@)] + package_candidates(sd.drop_first(), extends@));
        if crate::text::chars_eq(&dir, &root) {
            assert(sd.drop_first() =~= Seq::<Seq<char>>::empty());
            assert(views(out@) =~= all);
            done = true;
        } else {
            match parent_path(from_chars(dir.as_slice()).as_str()) {
                Some(parent) => {
                    let pv = to_chars(parent.as_str());
                    if pv.len() < dir.len() {
                        assert(sd.drop_first() =~= search_dirs(pv@, repo_root@));
                        assert(views(out@) + package_candidates(search_dirs(pv@, repo_root@), extends@) =~= all);
                        dir = pv;
                    } else {
                        assert(sd.drop_first() =~= Seq::<Seq<char>>::empty());
                        assert(views(out@) =~= all);
                        done = true;
                    }
                },
                None => {
                    assert(sd.drop_first() =~= Seq::<Seq<char>>::empty());
                    assert(views(out@) =~= all);
                    done = true;
                },
            }
        }
    }
    out
}

// ---------------------------------------------------------------------------
// Discovery and assembly
// ---------------------------------------------------------------------------

/// Config files read for module resolution.
pub fn is_config_file_name(name: &str) -> (r: bool)
    ensures
        r == (name@ == "tsconfig.json"@ || name@ == "jsconfig.json"@),
{
    str_eq(name, "tsconfig.json") || str_eq(name, "jsconfig.json")
}

/// Directories never searched for config files.
pub fn is_skipped_dir_name(name: &str) -> (r: bool)
    ensures
        r == (name@ == ".git"@ || name@ == "node_modules"@ || name@ == "target"@ || name@ == ".direnv"@),
{
    str_eq(name, ".git") || str_eq(name, "node_modules") || str_eq(name, "target") || str_eq(name, ".direnv")
}

/// Assemble the configs, in order, into one: the first config of each scope wins; the one of
/// the repository root provides the root baseUrl and paths, the others become scoped configs.
pub open spec fn assemble(sc: Seq<ScopedView>) -> ResolutionAssembly
    decreases sc.len(),
{
    if sc.len() == 0 {
        ResolutionAssembly { base_url: None, paths: Seq::empty(), scoped: Seq::empty(), seen: Set::empty() }
    } else {
        let prev = assemble(sc.drop_last());
        let c = sc.last();
        if prev.seen.contains(c.scope_dir) {
            prev
        } else if c.scope_dir.len() == 0 {
            ResolutionAssembly { base_url: c.base_url, paths: c.paths, scoped: prev.scoped, seen: prev.seen.insert(c.scope_dir) }
        } else {
            ResolutionAssembly {
                base_url: prev.base_url,
                paths: prev.paths,
                scoped: prev.scoped.push(c),
                seen: prev.seen.insert(c.scope_dir),
            }
        }
    }
}

/// The configuration assembled so far, with the scopes already taken.
pub struct ResolutionAssembly {
    pub base_url: Option<Seq<char>>,
    pub paths: Seq<AliasView>,
    pub scoped: Seq<ScopedView>,
    pub seen: Set<Seq<char>>,
}

/// Each scope is configured once: the assembled scoped configs have non-empty, pairwise
/// distinct scope directories, and each was the first config of its scope.
pub proof fn lemma_assembled_scopes_distinct(sc: Seq<ScopedView>)
    ensures
        ({
            let a = assemble(sc);
            &&& forall|i: int, j: int|
                0 <= i < j < a.scoped.len() ==> (#[trigger] a.scoped[i]).scope_dir != (#[trigger] a.scoped[j]).scope_dir
            &&& forall|i: int| 0 <= i < a.scoped.len() ==> (#[trigger] a.scoped[i]).scope_dir.len() > 0
            &&& forall|i: int| 0 <= i < a.scoped.len() ==> a.seen.contains(#[trigger] a.scoped[i].scope_dir)
            &&& forall|i: int|
                0 <= i < a.scoped.len() ==> exists|k: int|
                    0 <= k < sc.len() && sc[k] == #[trigger] a.scoped[i] && forall|m: int|
                        0 <= m < k ==> (#[trigger] sc[m]).scope_dir != sc[k].scope_dir
        }),
    decreases sc.len(),
{
    if sc.len() > 0 {
        let init = sc.drop_last();
        lemma_assembled_scopes_distinct(init);
        let prev = assemble(init);
        let c = sc.last();
        let a = assemble(sc);
        lemma_assemble_seen(init);
        assert forall|i: int| 0 <= i < a.scoped.len() implies exists|k: int|
            0 <= k < sc.len() && sc[k] == #[trigger] a.scoped[i] && forall|m: int|
                0 <= m < k ==> (#[trigger] sc[m]).scope_dir != sc[k].scope_dir by {
            if i < prev.scoped.len() {
                assert(a.scoped[i] == prev.scoped[i]);
                let k = choose|k: int|
                    0 <= k < init.len() && init[k] == #[trigger] prev.scoped[i] && forall|m: int|
                        0 <= m < k ==> (#[trigger] init[m]).scope_dir != init[k].scope_dir;
                assert(sc[k] == init[k]);
                assert forall|m: int| 0 <= m < k implies (#[trigger] sc[m]).scope_dir != sc[k].scope_dir by {
                    assert(sc[m] == init[m]);
                }
            } else {
                let k = sc.len() - 1;
                assert(a.scoped[i] == c);
                assert forall|m: int| 0 <= m < k implies (#[trigger] sc[m]).scope_dir != sc[k].scope_dir by {
                    assert(sc[m] == init[m]);
                    assert(prev.seen.contains(init[m].scope_dir));
                }
            }
        }
    }
}

proof fn lemma_assemble_seen(sc: Seq<ScopedView>)
    ensures
        forall|m: int| 0 <= m < sc.len() ==> assemble(sc).seen.contains(#[trigger] sc[m].scope_dir),
    decreases sc.len(),
{
    if sc.len() > 0 {
        let init = sc.drop_last();
        lemma_assemble_seen(init);
        assert forall|m: int| 0 <= m < sc.len() implies assemble(sc).seen.contains(#[trigger] sc[m].scope_dir) by {
            if m < init.len() {
                assert(sc[m] == init[m]);
            }
        }
    }
}

/// Exec: `assemble`.
pub fn assemble_module_resolution(scoped: Vec<ScopedModuleResolution>) -> (r: ModuleResolutionConfig)
    ensures
        ({
            let a = assemble(card_views(scoped@));
            &&& r@.base_url == a.base_url
            &&& r@.paths == a.paths
            &&& r@.scoped == a.scoped
        }),
{
    let ghost sv = card_views(scoped@);
    let mut config = ModuleResolutionConfig { tsconfig_base_url: None, tsconfig_paths: Vec::new(), scoped_configs: Vec::new() };
    let mut seen: Vec<String> = Vec::new();
    let mut rest = scoped;
    let ghost mut k: int = 0;
    while rest.len() > 0
        invariant
            0 <= k <= sv.len(),
            card_views(rest@) == sv.subrange(k, sv.len() as int),
            ({
                let a = assemble(sv.subrange(0, k));
                &&& config@.base_url == a.base_url
                &&& config@.paths == a.paths
                &&& config@.scoped == a.scoped
                &&& views(seen@).to_set() == a.seen
            }),
        decreases rest.len(),
    {
        let ghost before = rest@;
        assert(card_views(rest@).len() == rest@.len());
        let c = rest.remove(0);
        proof {
            assert(card_views(before)[0] == c@);
            assert(card_views(rest@) =~= card_views(before).drop_first());
            assert(sv.subrange(k, sv.len() as int)[0] == sv[k]);
            assert(sv.subrange(0, k + 1).drop_last() =~= sv.subrange(0, k));
            assert(sv.subrange(0, k + 1).last() == c@);
        }
        let taken = crate::investigation::contains_string(&seen, &c.scope_dir);
        proof {
            assert(views(seen@).contains(c.scope_dir@) <==> views(seen@).to_set().contains(c.scope_dir@));
        }
        if !taken {
            let dir = c.scope_dir.clone();
            proof {
                crate::text::lemma_views_push(seen@, dir);
                crate::order::lemma_push_to_set(views(seen@), dir@);
            }
            seen.push(dir);
            if c.scope_dir.as_str().is_empty() {
                config.tsconfig_base_url = c.tsconfig_base_url;
                config.tsconfig_paths = c.tsconfig_paths;
            } else {
                let ghost pre = config.scoped_configs@;
                config.scoped_configs.push(c);
                assert(card_views(config.scoped_configs@) =~= card_views(pre).push(sv[k]));
            }
        }
        proof {
            assert(card_views(rest@) =~= sv.subrange(k + 1, sv.len() as int));
            k = k + 1;
        }
    }
    assert(sv.subrange(0, k) =~= sv);
    config
}


// ---------------------------------------------------------------------------
// Reading order of config files
// ---------------------------------------------------------------------------

/// `Path::components().count()`: the root, a leading `.`, and every non-empty, non-`.` segment.
pub open spec fn component_count(p: Seq<char>) -> nat {
    (if is_absolute(p) { 1nat } else { 0nat }) + (if p == seq!['.'] || (p.len() >= 2 && p[0] == '.' && p[1]
        == '/') {
        1nat
    } else {
        0nat
    }) + crate::paths::kept_segments(split_all(p, '/')).len()
}

/// `tsconfig.json` is read before `jsconfig.json`, and both before anything else.
pub open spec fn config_priority(p: Seq<char>) -> nat {
    match crate::paths::file_name(p) {
        Some(f) => if f == "tsconfig.json"@ {
            0
        } else if f == "jsconfig.json"@ {
            1
        } else {
            2
        },
        None => 2,
    }
}

/// A discovered config file, ranked for reading: shallower first, then by priority, then by
/// path.
pub struct ConfigPath {
    pub path: String,
}

impl View for ConfigPath {
    type V = Seq<char>;

    open spec fn view(&self) -> Seq<char> {
        self.path@
    }
}

fn component_count_exec(p: &Vec<char>) -> (r: i128)
    ensures
        r as int == component_count(p@),
        0 <= r <= usize::MAX as int + 2,
{
    let segs = split_exec(p, '/');
    let ghost sv = segs@.map_values(|v: Vec<char>| v@);
    let mut n: usize = 0;
    let mut i: usize = 0;
    while i < segs.len()
        invariant
            0 <= i <= segs.len(),
            sv == segs@.map_values(|v: Vec<char>| v@),
            n as nat == crate::paths::kept_segments(sv.subrange(0, i as int)).len(),
            n <= i,
        decreases segs.len() - i,
    {
        proof {
            assert(sv.subrange(0, i + 1).drop_last() =~= sv.subrange(0, i as int));
        }
        if !(segs[i].len() == 0 || (segs[i].len() == 1 && segs[i][0] == '.')) {
            n = n + 1;
        } else {
            proof {
                if segs[i as int]@.len() == 1 {
                    assert(segs[i as int]@ =~= seq!['.']);
                }
            }
        }
        i = i + 1;
    }
    assert(sv.subrange(0, i as int) =~= sv);
    let abs: i128 = if p.len() > 0 && p[0] == '/' { 1 } else { 0 };
    let cur: i128 = if (p.len() == 1 && p[0] == '.') || (p.len() >= 2 && p[0] == '.' && p[1] == '/') {
        proof {
            if p@.len() == 1 {
                assert(p@ =~= seq!['.']);
            }
        }
        1
    } else {
        proof {
            if p@.len() == 1 {
                assert(p@ != seq!['.']);
            }
        }
        0
    };
    n as i128 + abs + cur
}

fn config_priority_exec(p: &Vec<char>) -> (r: u8)
    ensures
        r as nat == config_priority(p@),
{
    match crate::paths::file_name_exec(p) {
        Some(f) => {
            let fs = from_chars(f.as_slice());
            if str_eq(fs.as_str(), "tsconfig.json") {
                0
            } else if str_eq(fs.as_str(), "jsconfig.json") {
                1
            } else {
                2
            }
        },
        None => 2,
    }
}

impl crate::rank::Ranked for ConfigPath {
    open spec fn key_of(v: Seq<char>) -> RankKey {
        (-(3 * component_count(v) + config_priority(v)), v, v)
    }

    fn rank_score(&self) -> (r: i128) {
        let v = to_chars(self.path.as_str());
        let depth = component_count_exec(&v);
        let prio = config_priority_exec(&v);
        -(3 * depth + (prio as i128))
    }

    fn rank_path(&self) -> (r: &String) {
        &self.path
    }

    fn rank_ref(&self) -> (r: &String) {
        &self.path
    }
}

/// Order discovered config files for reading: shallower first, `tsconfig.json` before
/// `jsconfig.json`, then by path.
pub fn sort_config_paths(paths: Vec<String>) -> (r: Vec<String>)
    ensures
        views(r@) == crate::rank::ranked_sort::<ConfigPath>(views(paths@)),
{
    let ghost pv = views(paths@);
    let mut wrapped: Vec<ConfigPath> = Vec::new();
    let mut rest = paths;
    let ghost mut k: int = 0;
    while rest.len() > 0
        invariant
            0 <= k <= pv.len(),
            views(rest@) == pv.subrange(k, pv.len() as int),
            card_views(wrapped@) == pv.subrange(0, k),
        decreases rest.len(),
    {
        let ghost before = rest@;
        assert(views(rest@).len() == rest@.len());
        let p = rest.remove(0);
        proof {
            assert(views(before)[0] == p@);
            assert(views(rest@) =~= views(before).drop_first());
            assert(pv.subrange(k, pv.len() as int)[0] == pv[k]);
        }
        let ghost pre = wrapped@;
        let c = ConfigPath { path: p };
        wrapped.push(c);
        proof {
            assert(card_views(wrapped@) =~= card_views(pre).push(c@));
            assert(pv.subrange(0, k + 1) =~= pv.subrange(0, k).push(pv[k]));
            assert(views(rest@) =~= pv.subrange(k + 1, pv.len() as int));
            k = k + 1;
        }
    }
    assert(pv.subrange(0, k) =~= pv);
    let sorted = crate::rank::sort_ranked(wrapped);
    let ghost sv = card_views(sorted@);
    let mut out: Vec<String> = Vec::new();
    let mut srest = sorted;
    let ghost mut m: int = 0;
    while srest.len() > 0
        invariant
            0 <= m <= sv.len(),
            card_views(srest@) == sv.subrange(m, sv.len() as int),
            views(out@) == sv.subrange(0, m),
        decreases srest.len(),
    {
        let ghost before = srest@;
        assert(card_views(srest@).len() == srest@.len());
        let c = srest.remove(0);
        proof {
            assert(card_views(before)[0] == c@);
            assert(card_views(srest@) =~= card_views(before).drop_first());
            assert(sv.subrange(m, sv.len() as int)[0] == sv[m]);
            crate::text::lemma_views_push(out@, c.path);
        }
        out.push(c.path);
        proof {
            assert(sv.subrange(0, m + 1) =~= sv.subrange(0, m).push(sv[m]));
            assert(card_views(srest@) =~= sv.subrange(m + 1, sv.len() as int));
            m = m + 1;
        }
    }
    assert(sv.subrange(0, m) =~= sv);
    out
}


// ---------------------------------------------------------------------------
// Reading all configs
// ---------------------------------------------------------------------------

/// The next step of loading an `extends` chain.
pub enum ChainStep {
    /// Read and parse the file at this path, and hand its content to `ChainLoader::loaded`.
    Read(String),
    /// Find the first of these files that exists, and hand it to `ChainLoader::probed`.
    Probe(Vec<String>),
    /// The chain is complete.
    Done,
    /// The config itself could not be read or parsed.
    Unreadable,
}

/// The mathematical content of a `ChainStep`.
pub enum ChainStepView {
    Read(Seq<char>),
    Probe(Seq<Seq<char>>),
    Done,
    Unreadable,
}

impl View for ChainStep {
    type V = ChainStepView;

    open spec fn view(&self) -> ChainStepView {
        match self {
            ChainStep::Read(p) => ChainStepView::Read(p@),
            ChainStep::Probe(c) => ChainStepView::Probe(views(c@)),
            ChainStep::Done => ChainStepView::Done,
            ChainStep::Unreadable => ChainStepView::Unreadable,
        }
    }
}

/// The loading of one config's `extends` chain: each file is read once (a file met again ends
/// the chain), and an unreadable parent ends it too.
pub struct ChainLoader {
    root: String,
    visited: Vec<String>,
    current: String,
    chain: Vec<(String, JsonValue)>,
}

/// The state of a chain loader: the repository root, the files visited, the file being read,
/// and the chain loaded so far.
pub struct ChainLoaderView {
    pub root: Seq<char>,
    pub visited: Seq<Seq<char>>,
    pub current: Seq<char>,
    pub chain: Seq<(Seq<char>, JsonValue)>,
}

impl View for ChainLoader {
    type V = ChainLoaderView;

    closed spec fn view(&self) -> ChainLoaderView {
        ChainLoaderView {
            root: self.root@,
            visited: views(self.visited@),
            current: self.current@,
            chain: chain_views(self.chain@),
        }
    }
}

/// The directory a config file's relative settings are resolved against: its parent, or the
/// root for a path without one.
pub open spec fn config_dir_of(path: Seq<char>, root: Seq<char>) -> Seq<char> {
    match path_parent(path) {
        Some(d) => d,
        None => root,
    }
}

impl ChainLoader {
    /// Start loading the chain of the config at `config_path`: read it first.
    pub fn new(repo_root: &str, config_path: &str) -> (r: (ChainLoader, ChainStep))
        ensures
            r.0@.root == repo_root@,
            r.0@.visited == seq![normalized_path(config_path@)],
            r.0@.current == normalized_path(config_path@),
            r.0@.chain.len() == 0,
            r.1@ == ChainStepView::Read(normalized_path(config_path@)),
    {
        let first = normalize_path(config_path);
        let mut visited: Vec<String> = Vec::new();
        visited.push(first.clone());
        let loader = ChainLoader {
            root: crate::text::string_of(repo_root),
            visited,
            current: first.clone(),
            chain: Vec::new(),
        };
        assert(views(loader.visited@) =~= seq![first@]);
        assert(chain_views(loader.chain@) =~= Seq::<(Seq<char>, JsonValue)>::empty());
        (loader, ChainStep::Read(first))
    }

    /// The file being read has been read: its content, or `None` when it could not be read or
    /// parsed. A loaded file joins the chain with its directory; its `extends`, if any, names
    /// the candidate files to look for next.
    pub fn loaded(&mut self, content: Option<JsonValue>) -> (r: ChainStep)
        ensures
            final(self)@.root == old(self)@.root,
            final(self)@.visited == old(self)@.visited,
            final(self)@.current == old(self)@.current,
            match content {
                None => final(self)@.chain == old(self)@.chain && r@ == if old(self)@.chain.len() == 0 {
                    ChainStepView::Unreadable
                } else {
                    ChainStepView::Done
                },
                Some(json) => {
                    let dir = config_dir_of(old(self)@.current, old(self)@.root);
                    &&& final(self)@.chain == old(self)@.chain.push((dir, json))
                    &&& r@ == match extends_of(json) {
                        None => ChainStepView::Done,
                        Some(e) => ChainStepView::Probe(extends_candidates(old(self)@.root, dir, e)),
                    }
                },
            },
    {
        match content {
            None => {
                if self.chain.len() == 0 {
                    ChainStep::Unreadable
                } else {
                    ChainStep::Done
                }
            },
            Some(json) => {
                let dir = match parent_path(self.current.as_str()) {
                    Some(d) => d,
                    None => self.root.clone(),
                };
                let extends = config_extends(&json);
                let ghost pre = self.chain@;
                let link = (dir.clone(), json);
                self.chain.push(link);
                assert(chain_views(self.chain@) =~= chain_views(pre).push((link.0@, link.1)));
                match extends {
                    None => ChainStep::Done,
                    Some(e) => ChainStep::Probe(resolve_extends_candidates(self.root.as_str(), dir.as_str(), e.as_str())),
                }
            },
        }
    }

    /// The first existing candidate has been found (`None`: none exists). A file not yet
    /// visited is read next; otherwise the chain is complete.
    pub fn probed(&mut self, found: Option<String>) -> (r: ChainStep)
        ensures
            final(self)@.root == old(self)@.root,
            final(self)@.chain == old(self)@.chain,
            match found {
                None => r@ == ChainStepView::Done && final(self)@.visited == old(self)@.visited
                    && final(self)@.current == old(self)@.current,
                Some(p) => {
                    let n = normalized_path(p@);
                    if old(self)@.visited.contains(n) {
                        r@ == ChainStepView::Done && final(self)@.visited == old(self)@.visited
                            && final(self)@.current == old(self)@.current
                    } else {
                        r@ == ChainStepView::Read(n) && final(self)@.visited == old(self)@.visited.push(n)
                            && final(self)@.current == n
                    }
                },
            },
    {
        match found {
            None => ChainStep::Done,
            Some(p) => {
                let n = normalize_path(p.as_str());
                if crate::investigation::contains_string(&self.visited, &n) {
                    ChainStep::Done
                } else {
                    let ghost pre = self.visited@;
                    self.visited.push(n.clone());
                    proof {
                        crate::text::lemma_views_push(pre, n);
                    }
                    self.current = n.clone();
                    ChainStep::Read(n)
                }
            },
        }
    }

    /// The chain loaded: the config first, each file followed by the one it extends.
    pub fn into_chain(self) -> (r: Vec<(String, JsonValue)>)
        ensures
            chain_views(r@) == self@.chain,
    {
        self.chain
    }
}

/// The views of the loaded configs of an `extends` chain: each file's directory and content.
pub open spec fn chain_views(chain: Seq<(String, JsonValue)>) -> Seq<(Seq<char>, JsonValue)> {
    chain.map_values(|l: (String, JsonValue)| (l.0@, l.1))
}

/// The settings of an `extends` chain, the config first and each file followed by the one it
/// extends: the baseUrl and path rules of each file merged over those of its parent.
pub open spec fn chain_settings(root: Seq<char>, chain: Seq<(Seq<char>, JsonValue)>) -> (Option<Seq<char>>, Seq<AliasView>)
    decreases chain.len(),
{
    if chain.len() == 0 {
        (None, Seq::empty())
    } else {
        let parent = chain_settings(root, chain.drop_first());
        let base = match base_url_of(chain[0].1, chain[0].0, root) {
            Some(b) => Some(b),
            None => parent.0,
        };
        (base, merge_rules(paths_of(chain[0].1, chain[0].0, root), parent.1))
    }
}

/// Resolve a config through its `extends` chain: the loaded files from the config itself to
/// the last one it (indirectly) extends, each with its directory.
pub fn resolve_chain(repo_root: &str, chain: &Vec<(String, JsonValue)>) -> (r: ResolvedModuleConfig)
    ensures
        (opt_string(r.tsconfig_base_url), card_views(r.tsconfig_paths@)) == chain_settings(repo_root@, chain_views(chain@)),
{
    let ghost cv = chain_views(chain@);
    let mut acc = ResolvedModuleConfig { tsconfig_base_url: None, tsconfig_paths: Vec::new() };
    let mut i: usize = chain.len();
    proof {
        assert(cv.subrange(i as int, cv.len() as int) =~= Seq::<(Seq<char>, JsonValue)>::empty());
        assert(card_views(acc.tsconfig_paths@) =~= Seq::<AliasView>::empty());
    }
    while i > 0
        invariant
            0 <= i <= chain.len(),
            cv == chain_views(chain@),
            (opt_string(acc.tsconfig_base_url), card_views(acc.tsconfig_paths@)) == chain_settings(
                repo_root@,
                cv.subrange(i as int, cv.len() as int),
            ),
        decreases i,
    {
        let link = &chain[i - 1];
        let current = extract_compiler_options(repo_root, link.0.as_str(), &link.1);
        proof {
            let sub = cv.subrange(i - 1, cv.len() as int);
            assert(sub.drop_first() =~= cv.subrange(i as int, cv.len() as int));
            assert(sub[0] == cv[i - 1]);
            assert(cv[i - 1] == (chain@[i - 1].0@, chain@[i - 1].1));
        }
        acc = merge_configs(acc, current);
        i = i - 1;
    }
    assert(cv.subrange(0, cv.len() as int) =~= cv);
    acc
}

/// The scoped config of one config file: its scope directory (that of its parent directory,
/// or of the root) with the settings of its chain; none when the file could not be read or
/// lies outside the root.
pub open spec fn scoped_of(root: Seq<char>, path: Seq<char>, chain: Option<Seq<(Seq<char>, JsonValue)>>) -> Option<ScopedView> {
    match chain {
        None => None,
        Some(c) => {
            let dir = match path_parent(path) {
                Some(d) => d,
                None => root,
            };
            match scope_dir_of(dir, root) {
                None => None,
                Some(scope) => Some(
                    ScopedView { scope_dir: scope, base_url: chain_settings(root, c).0, paths: chain_settings(root, c).1 },
                ),
            }
        },
    }
}

/// The views of the config files in reading order, each with its loaded chain.
pub open spec fn config_views(configs: Seq<(String, Option<Vec<(String, JsonValue)>>)>) -> Seq<(Seq<char>, Option<Seq<(Seq<char>, JsonValue)>>)> {
    configs.map_values(
        |c: (String, Option<Vec<(String, JsonValue)>>)|
            (
                c.0@,
                match c.1 {
                    Some(ch) => Some(chain_views(ch@)),
                    None => None,
                },
            ),
    )
}

/// The scoped configs of the config files, in reading order.
pub open spec fn scoped_list(root: Seq<char>, configs: Seq<(Seq<char>, Option<Seq<(Seq<char>, JsonValue)>>)>) -> Seq<ScopedView>
    decreases configs.len(),
{
    if configs.len() == 0 {
        Seq::empty()
    } else {
        let prev = scoped_list(root, configs.drop_last());
        match scoped_of(root, configs.last().0, configs.last().1) {
            Some(sc) => prev.push(sc),
            None => prev,
        }
    }
}

/// Read module-resolution hints from the config files of a repository, given in reading order
/// (see `sort_config_paths`), each with its loaded `extends` chain (`None` when the file could
/// not be read or parsed): each config becomes a scoped config, and the first config of each
/// scope wins.
pub fn read_module_resolution(repo_root: &str, configs: Vec<(String, Option<Vec<(String, JsonValue)>>)>) -> (r: ModuleResolutionConfig)
    ensures
        ({
            let a = assemble(scoped_list(repo_root@, config_views(configs@)));
            &&& r@.base_url == a.base_url
            &&& r@.paths == a.paths
            &&& r@.scoped == a.scoped
        }),
{
    let ghost cv = config_views(configs@);
    let mut scoped: Vec<ScopedModuleResolution> = Vec::new();
    let mut i: usize = 0;
    while i < configs.len()
        invariant
            0 <= i <= configs.len(),
            cv == config_views(configs@),
            card_views(scoped@) == scoped_list(repo_root@, cv.subrange(0, i as int)),
        decreases configs.len() - i,
    {
        proof {
            assert(cv.subrange(0, i + 1).drop_last() =~= cv.subrange(0, i as int));
            assert(cv.subrange(0, i + 1).last() == cv[i as int]);
        }
        let entry = &configs[i];
        match &entry.1 {
            Some(chain) => {
                let dir = match parent_path(entry.0.as_str()) {
                    Some(d) => d,
                    None => crate::text::string_of(repo_root),
                };
                match normalize_scope_dir(dir.as_str(), repo_root) {
                    Some(scope) => {
                        let resolved = resolve_chain(repo_root, chain);
                        let sc = ScopedModuleResolution {
                            scope_dir: scope,
                            tsconfig_base_url: resolved.tsconfig_base_url,
                            tsconfig_paths: resolved.tsconfig_paths,
                        };
                        let ghost pre = scoped@;
                        scoped.push(sc);
                        assert(card_views(scoped@) =~= card_views(pre).push(sc@));
                    },
                    None => {},
                }
            },
            None => {},
        }
        i = i + 1;
    }
    assert(cv.subrange(0, i as int) =~= cv);
    assemble_module_resolution(scoped)
}

} // verus!
