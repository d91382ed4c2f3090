//! JSON-with-comments preprocessing for `tsconfig.json`/`jsconfig.json`, and merging of
//! module-resolution configs along `extends` chains.
use vstd::prelude::*;
use crate::text::{char_is_whitespace, from_chars, is_ws, to_chars, str_eq};
use crate::investigation::{AliasView, PathAliasRule};
use crate::rank::card_views;

verus! {

broadcast use vstd::seq::group_seq_axioms;

/// Where the comment stripper is in its input.
#[derive(Clone, Copy, PartialEq, Eq, Structural)]
pub enum ScanMode {
    /// Outside strings and comments.
    Code,
    /// Inside a string literal.
    Str,
    /// Right after a backslash inside a string literal.
    Escape,
    /// Inside a `//` comment.
    Line,
    /// Inside a `/* */` comment, not right after a `*`.
    Block,
    /// Inside a `/* */` comment, right after a `*`.
    BlockStar,
}

/// The text of `s` with `//` and `/* */` comments removed outside strings, each comment
/// keeping the line breaks it spanned; a `//` comment ends with (and keeps) its line break.
pub open spec fn strip_from(s: Seq<char>, mode: ScanMode) -> Seq<char>
    decreases s.len(),
{
    if s.len() == 0 {
        Seq::empty()
    } else {
        let c = s[0];
        let rest = s.drop_first();
        match mode {
            ScanMode::Code => if c == '"' {
                seq![c] + strip_from(rest, ScanMode::Str)
            } else if c == '/' && rest.len() > 0 && rest[0] == '/' {
                strip_from(rest.drop_first(), ScanMode::Line)
            } else if c == '/' && rest.len() > 0 && rest[0] == '*' {
                strip_from(rest.drop_first(), ScanMode::Block)
            } else {
                seq![c] + strip_from(rest, ScanMode::Code)
            },
            ScanMode::Str => seq![c] + strip_from(
                rest,
                if c == '\\' {
                    ScanMode::Escape
                } else if c == '"' {
                    ScanMode::Code
                } else {
                    ScanMode::Str
                },
            ),
            ScanMode::Escape => seq![c] + strip_from(rest, ScanMode::Str),
            ScanMode::Line => if c == '\n' {
                seq!['\n'] + strip_from(rest, ScanMode::Code)
            } else {
                strip_from(rest, ScanMode::Line)
            },
            ScanMode::Block | ScanMode::BlockStar => {
                let next = if mode == ScanMode::BlockStar && c == '/' {
                    ScanMode::Code
                } else if c == '*' {
                    ScanMode::BlockStar
                } else {
                    ScanMode::Block
                };
                if c == '\n' {
                    seq!['\n'] + strip_from(rest, next)
                } else {
                    strip_from(rest, next)
                }
            },
        }
    }
}


/// Strip `//` and `/* */` comments that lie outside string literals.
pub fn strip_jsonc_comments(source: &str) -> (r: String)
    ensures
        r@ == strip_from(source@, ScanMode::Code),
{
    let s = to_chars(source);
    let mut out: Vec<char> = Vec::new();
    let mut mode = ScanMode::Code;
    let mut i: usize = 0;
    assert(s@.skip(0) =~= s@);
    while i < s.len()
        invariant
            0 <= i <= s.len(),
            s@ == source@,
            out@ + strip_from(s@.skip(i as int), mode) == strip_from(s@, ScanMode::Code),
        decreases s.len() - i,
    {
        let ghost t = s@.skip(i as int);
        let ghost o = out@;
        let ghost m = mode;
        let c = s[i];
        assert(t[0] == c);
        assert(t.drop_first() =~= s@.skip(i + 1));
        let has_next = i + 1 < s.len();
        proof {
            if has_next {
                assert(t.drop_first()[0] == s@[i + 1]);
                assert(t.drop_first().drop_first() =~= s@.skip(i + 2));
            }
        }
        let ghost t1 = s@.skip(i + 1);
        match mode {
            ScanMode::Code => {
                if c == '"' {
                    assert(strip_from(t, m) == seq![c] + strip_from(t1, ScanMode::Str));
                    out.push(c);
                    mode = ScanMode::Str;
                    i = i + 1;
                } else if c == '/' && has_next && s[i + 1] == '/' {
                    assert(strip_from(t, m) == strip_from(s@.skip(i + 2), ScanMode::Line));
                    mode = ScanMode::Line;
                    i = i + 2;
                } else if c == '/' && has_next && s[i + 1] == '*' {
                    assert(strip_from(t, m) == strip_from(s@.skip(i + 2), ScanMode::Block));
                    mode = ScanMode::Block;
                    i = i + 2;
                } else {
                    assert(strip_from(t, m) == seq![c] + strip_from(t1, ScanMode::Code));
                    out.push(c);
                    i = i + 1;
                }
            },
            ScanMode::Str => {
                out.push(c);
                if c == '\\' {
                    mode = ScanMode::Escape;
                } else if c == '"' {
                    mode = ScanMode::Code;
                }
                assert(strip_from(t, m) == seq![c] + strip_from(t1, mode));
                i = i + 1;
            },
            ScanMode::Escape => {
                out.push(c);
                mode = ScanMode::Str;
                assert(strip_from(t, m) == seq![c] + strip_from(t1, mode));
                i = i + 1;
            },
            ScanMode::Line => {
                if c == '\n' {
                    out.push('\n');
                    mode = ScanMode::Code;
                    assert(strip_from(t, m) == seq!['\n'] + strip_from(t1, mode));
                } else {
                    assert(strip_from(t, m) == strip_from(t1, mode));
                }
                i = i + 1;
            },
            ScanMode::Block | ScanMode::BlockStar => {
                let ghost nm = if m == ScanMode::BlockStar && c == '/' {
                    ScanMode::Code
                } else if c == '*' {
                    ScanMode::BlockStar
                } else {
                    ScanMode::Block
                };
                if c == '\n' {
                    out.push('\n');
                    assert(strip_from(t, m) == seq!['\n'] + strip_from(t1, nm));
                } else {
                    assert(strip_from(t, m) == strip_from(t1, nm));
                }
                if mode == ScanMode::BlockStar && c == '/' {
                    mode = ScanMode::Code;
                } else if c == '*' {
                    mode = ScanMode::BlockStar;
                } else {
                    mode = ScanMode::Block;
                }
                i = i + 1;
            },
        }
        assert(out@ + strip_from(s@.skip(i as int), mode) =~= o + strip_from(t, m));
    }
    assert(out@ + strip_from(s@.skip(i as int), mode) =~= out@);
    from_chars(out.as_slice())
}

/// The first character of `s` that is not whitespace.
pub open spec fn next_non_ws(s: Seq<char>) -> Option<char>
    decreases s.len(),
{
    if s.len() == 0 {
        None
    } else if !is_ws(s[0]) {
        Some(s[0])
    } else {
        next_non_ws(s.drop_first())
    }
}

/// The text of `s` without the commas, outside strings, whose next non-whitespace character
/// closes an object or an array.
pub open spec fn drop_commas_from(s: Seq<char>, mode: ScanMode) -> Seq<char>
    decreases s.len(),
{
    if s.len() == 0 {
        Seq::empty()
    } else {
        let c = s[0];
        let rest = s.drop_first();
        match mode {
            ScanMode::Str => seq![c] + drop_commas_from(
                rest,
                if c == '\\' {
                    ScanMode::Escape
                } else if c == '"' {
                    ScanMode::Code
                } else {
                    ScanMode::Str
                },
            ),
            ScanMode::Escape => seq![c] + drop_commas_from(rest, ScanMode::Str),
            _ => if c == '"' {
                seq![c] + drop_commas_from(rest, ScanMode::Str)
            } else if c == ',' && (next_non_ws(rest) == Some('}') || next_non_ws(rest) == Some(']')) {
                drop_commas_from(rest, ScanMode::Code)
            } else {
                seq![c] + drop_commas_from(rest, ScanMode::Code)
            },
        }
    }
}

fn next_non_ws_exec(s: &Vec<char>, from: usize) -> (r: Option<char>)
    requires
        from <= s.len(),
    ensures
        r == next_non_ws(s@.skip(from as int)),
{
    let mut j = from;
    while j < s.len()
        invariant
            from <= j <= s.len(),
            next_non_ws(s@.skip(from as int)) == next_non_ws(s@.skip(j as int)),
        decreases s.len() - j,
    {
        assert(s@.skip(j as int)[0] == s@[j as int]);
        if !char_is_whitespace(s[j]) {
            return Some(s[j]);
        }
        assert(s@.skip(j as int).drop_first() =~= s@.skip(j + 1));
        j = j + 1;
    }
    None
}

/// Remove commas that directly precede (up to whitespace) a closing `}` or `]`, outside
/// string literals.
pub fn strip_trailing_commas(source: &str) -> (r: String)
    ensures
        r@ == drop_commas_from(source@, ScanMode::Code),
{
    let s = to_chars(source);
    let mut out: Vec<char> = Vec::new();
    let mut mode = ScanMode::Code;
    let mut i: usize = 0;
    assert(s@.skip(0) =~= s@);
    while i < s.len()
        invariant
            0 <= i <= s.len(),
            s@ == source@,
            mode == ScanMode::Code || mode == ScanMode::Str || mode == ScanMode::Escape,
            out@ + drop_commas_from(s@.skip(i as int), mode) == drop_commas_from(s@, ScanMode::Code),
        decreases s.len() - i,
    {
        let ghost t = s@.skip(i as int);
        let c = s[i];
        assert(t[0] == c);
        assert(t.drop_first() =~= s@.skip(i + 1));
        match mode {
            ScanMode::Str => {
                out.push(c);
                if c == '\\' {
                    mode = ScanMode::Escape;
                } else if c == '"' {
                    mode = ScanMode::Code;
                }
            },
            ScanMode::Escape => {
                out.push(c);
                mode = ScanMode::Str;
            },
            _ => {
                if c == '"' {
                    out.push(c);
                    mode = ScanMode::Str;
                } else if c == ',' {
                    let next = next_non_ws_exec(&s, i + 1);
                    let closes = match next {
                        Some(n) => n == '}' || n == ']',
                        None => false,
                    };
                    if !closes {
                        out.push(c);
                    }
                    mode = ScanMode::Code;
                } else {
                    out.push(c);
                    mode = ScanMode::Code;
                }
            },
        }
        i = i + 1;
    }
    assert(out@ + drop_commas_from(s@.skip(i as int), mode) =~= out@);
    from_chars(out.as_slice())
}

/// Module-resolution settings read from one config file (after its `extends` chain).
pub struct ResolvedModuleConfig {
    /// The baseUrl, repo-relative.
    pub tsconfig_base_url: Option<String>,
    /// The path alias rules, repo-relative.
    pub tsconfig_paths: Vec<PathAliasRule>,
}

/// Whether some rule has pattern `p`.
pub open spec fn has_pattern(rules: Seq<AliasView>, p: Seq<char>) -> bool {
    exists|i: int| 0 <= i < rules.len() && (#[trigger] rules[i]).pattern == p
}

/// The rules of `current`, then each rule of `parent` whose pattern is not yet present.
pub open spec fn merge_rules(current: Seq<AliasView>, parent: Seq<AliasView>) -> Seq<AliasView>
    decreases parent.len(),
{
    if parent.len() == 0 {
        current
    } else {
        let prev = merge_rules(current, parent.drop_last());
        if has_pattern(prev, parent.last().pattern) {
            prev
        } else {
            prev.push(parent.last())
        }
    }
}

fn has_pattern_exec(rules: &Vec<PathAliasRule>, p: &String) -> (r: bool)
    ensures
        r == has_pattern(card_views(rules@), p@),
{
    let mut i: usize = 0;
    while i < rules.len()
        invariant
            0 <= i <= rules.len(),
            forall|j: int| 0 <= j < i ==> (#[trigger] card_views(rules@)[j]).pattern != p@,
        decreases rules.len() - i,
    {
        assert(card_views(rules@)[i as int] == rules@[i as int]@);
        if str_eq(rules[i].pattern.as_str(), p.as_str()) {
            return true;
        }
        i = i + 1;
    }
    false
}

/// Merge a config with the one it extends: the child's baseUrl wins, and the child's path
/// rules come first, followed by the parent's rules for patterns the child does not define.
pub fn merge_configs(parent: ResolvedModuleConfig, current: ResolvedModuleConfig) -> (r: ResolvedModuleConfig)
    ensures
        crate::types::opt_view(r.tsconfig_base_url) == match crate::types::opt_view(current.tsconfig_base_url) {
            Some(b) => Some(b),
            None => crate::types::opt_view(parent.tsconfig_base_url),
        },
        card_views(r.tsconfig_paths@) == merge_rules(card_views(current.tsconfig_paths@), card_views(parent.tsconfig_paths@)),
{
    let ghost pv = card_views(parent.tsconfig_paths@);
    let ghost cv = card_views(current.tsconfig_paths@);
    let mut merged = current.tsconfig_paths;
    let mut rest = parent.tsconfig_paths;
    let ghost mut k: int = 0;
    while rest.len() > 0
        invariant
            0 <= k <= pv.len(),
            card_views(rest@) == pv.subrange(k, pv.len() as int),
            card_views(merged@) == merge_rules(cv, pv.subrange(0, k)),
        decreases rest.len(),
    {
        let ghost before = rest@;
        assert(card_views(rest@).len() == rest@.len());
        let rule = rest.remove(0);
        proof {
            assert(card_views(before)[0] == rule@);
            assert(card_views(rest@) =~= card_views(before).drop_first());
            assert(pv.subrange(k, pv.len() as int)[0] == pv[k]);
            assert(pv.subrange(0, k + 1).drop_last() =~= pv.subrange(0, k));
            assert(pv.subrange(0, k + 1).last() == rule@);
        }
        if !has_pattern_exec(&merged, &rule.pattern) {
            let ghost pre = merged@;
            merged.push(rule);
            assert(card_views(merged@) =~= card_views(pre).push(rule@));
        }
        proof {
            assert(card_views(rest@) =~= pv.subrange(k + 1, pv.len() as int));
            k = k + 1;
        }
    }
    assert(pv.subrange(0, k) =~= pv);
    let base = match current.tsconfig_base_url {
        Some(b) => Some(b),
        None => parent.tsconfig_base_url,
    };
    ResolvedModuleConfig { tsconfig_base_url: base, tsconfig_paths: merged }
}

} // verus!
