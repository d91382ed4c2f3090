//! Command-line search filters and the parse report printed in verbose mode.
use vstd::prelude::*;
use crate::investigation::{decimal, decimal_usize};
use crate::text::{
    append_chars, ascii_lower, ascii_lower_exec, from_chars, replace_char, replace_char_exec,
    starts_with, to_chars, trim, trim_bounds, views,
};
use crate::types::{SearchDocumentType, SearchFilters};

verus! {

broadcast use vstd::seq::group_seq_axioms;

/// CLI value for `--type` search filtering.
#[derive(Clone, Copy, Debug, PartialEq, Eq, Structural)]
pub enum SearchTypeArg {
    /// Search only code symbols.
    Code,
    /// Search only documentation sections.
    Doc,
}

/// `s` without its leading `./` prefixes, as `trim_start_matches("./")` leaves it.
pub open spec fn strip_dot_slash(s: Seq<char>) -> Seq<char>
    decreases s.len(),
{
    if s.len() >= 2 && s[0] == '.' && s[1] == '/' {
        strip_dot_slash(s.skip(2))
    } else {
        s
    }
}

/// `s` without leading `c`s.
pub open spec fn trim_start_char(s: Seq<char>, c: char) -> Seq<char>
    decreases s.len(),
{
    if s.len() > 0 && s[0] == c {
        trim_start_char(s.drop_first(), c)
    } else {
        s
    }
}

/// `s` without trailing `c`s.
pub open spec fn trim_end_char(s: Seq<char>, c: char) -> Seq<char>
    decreases s.len(),
{
    if s.len() > 0 && s.last() == c {
        trim_end_char(s.drop_last(), c)
    } else {
        s
    }
}

/// A directory filter as it is matched: trimmed, with `/` separators, without a leading `./`
/// and without leading or trailing `/`.
pub open spec fn dir_filter(dir: Seq<char>) -> Seq<char> {
    trim_end_char(trim_start_char(strip_dot_slash(replace_char(trim(dir), '\\', '/')), '/'), '/')
}

/// An extension filter as it is matched: trimmed, without leading dots, ASCII-lowercased.
pub open spec fn ext_filter(ext: Seq<char>) -> Seq<char> {
    ascii_lower(trim_start_char(trim(ext), '.'))
}

fn trimmed(s: &str) -> (r: Vec<char>)
    ensures
        r@ == trim(s@),
{
    let v = to_chars(s);
    let (a, b) = trim_bounds(&v, 0, v.len());
    assert(v@.subrange(0, v@.len() as int) =~= v@);
    crate::text::sub_chars(&v, a, b)
}

fn strip_dot_slash_exec(s: &Vec<char>) -> (r: Vec<char>)
    ensures
        r@ == strip_dot_slash(s@),
{
    let mut i: usize = 0;
    assert(s@.skip(0) =~= s@);
    while s.len() - i >= 2 && s[i] == '.' && s[i + 1] == '/'
        invariant
            0 <= i <= s.len(),
            strip_dot_slash(s@) == strip_dot_slash(s@.skip(i as int)),
        decreases s.len() - i,
    {
        assert(s@.skip(i as int).skip(2) =~= s@.skip(i + 2));
        i = i + 2;
    }
    crate::text::sub_chars(s, i, s.len())
}

pub fn trim_start_char_exec(s: &Vec<char>, c: char) -> (r: Vec<char>)
    ensures
        r@ == trim_start_char(s@, c),
{
    let mut a: usize = 0;
    assert(s@.subrange(0, s@.len() as int) =~= s@);
    while a < s.len() && s[a] == c
        invariant
            0 <= a <= s.len(),
            trim_start_char(s@, c) == trim_start_char(s@.subrange(a as int, s@.len() as int), c),
        decreases s.len() - a,
    {
        assert(s@.subrange(a as int, s@.len() as int).drop_first() =~= s@.subrange(a + 1, s@.len() as int));
        a = a + 1;
    }
    crate::text::sub_chars(s, a, s.len())
}

fn trim_end_char_exec(s: &Vec<char>, c: char) -> (r: Vec<char>)
    ensures
        r@ == trim_end_char(s@, c),
{
    let mut b: usize = s.len();
    assert(s@.subrange(0, s@.len() as int) =~= s@);
    while b > 0 && s[b - 1] == c
        invariant
            0 <= b <= s.len(),
            trim_end_char(s@, c) == trim_end_char(s@.subrange(0, b as int), c),
        decreases b,
    {
        assert(s@.subrange(0, b as int).drop_last() =~= s@.subrange(0, b - 1));
        b = b - 1;
    }
    crate::text::sub_chars(s, 0, b)
}

/// Normalize a `--dir` filter; `None` when nothing is left of it.
pub fn normalize_dir_filter(dir: &str) -> (r: Option<String>)
    ensures
        match r {
            Some(d) => d@ == dir_filter(dir@) && d@.len() > 0,
            None => dir_filter(dir@).len() == 0,
        },
{
    let t = trimmed(dir);
    let slashed = replace_char_exec(&t, '\\', '/');
    let stripped = strip_dot_slash_exec(&slashed);
    let n = trim_end_char_exec(&trim_start_char_exec(&stripped, '/'), '/');
    if n.len() == 0 {
        None
    } else {
        Some(from_chars(n.as_slice()))
    }
}

/// Normalize an `--ext` filter; `None` when nothing is left of it.
pub fn normalize_ext_filter(ext: &str) -> (r: Option<String>)
    ensures
        match r {
            Some(e) => e@ == ext_filter(ext@) && e@.len() > 0,
            None => ext_filter(ext@).len() == 0,
        },
{
    let t = trimmed(ext);
    let s = trim_start_char_exec(&t, '.');
    let n = ascii_lower_exec(&s);
    if n.len() == 0 {
        None
    } else {
        Some(from_chars(n.as_slice()))
    }
}

/// The non-empty normalized directory filters, in order.
pub open spec fn dir_filters(dirs: Seq<Seq<char>>) -> Seq<Seq<char>>
    decreases dirs.len(),
{
    if dirs.len() == 0 {
        Seq::empty()
    } else if dir_filter(dirs.last()).len() > 0 {
        dir_filters(dirs.drop_last()).push(dir_filter(dirs.last()))
    } else {
        dir_filters(dirs.drop_last())
    }
}

/// The non-empty normalized extension filters, in order.
pub open spec fn ext_filters(exts: Seq<Seq<char>>) -> Seq<Seq<char>>
    decreases exts.len(),
{
    if exts.len() == 0 {
        Seq::empty()
    } else if ext_filter(exts.last()).len() > 0 {
        ext_filters(exts.drop_last()).push(ext_filter(exts.last()))
    } else {
        ext_filters(exts.drop_last())
    }
}

/// The search document type a `--type` value selects.
pub open spec fn type_of_arg(a: SearchTypeArg) -> SearchDocumentType {
    match a {
        SearchTypeArg::Code => SearchDocumentType::Code,
        SearchTypeArg::Doc => SearchDocumentType::Doc,
    }
}

/// Build search filters from the command-line values: normalized directories and extensions
/// (empty ones dropped) and the result type.
pub fn build_search_filters(dirs: &Vec<String>, exts: &Vec<String>, result_type: Option<SearchTypeArg>) -> (r: SearchFilters)
    ensures
        views(r.dirs@) == dir_filters(views(dirs@)),
        views(r.exts@) == ext_filters(views(exts@)),
        r.result_type == match result_type {
            Some(a) => Some(type_of_arg(a)),
            None => None,
        },
{
    let ghost dv = views(dirs@);
    let mut out_dirs: Vec<String> = Vec::new();
    let mut i: usize = 0;
    while i < dirs.len()
        invariant
            0 <= i <= dirs.len(),
            dv == views(dirs@),
            views(out_dirs@) == dir_filters(dv.subrange(0, i as int)),
        decreases dirs.len() - i,
    {
        proof {
            assert(dv.subrange(0, i + 1).drop_last() =~= dv.subrange(0, i as int));
            assert(dv.subrange(0, i + 1).last() == dirs@[i as int]@);
        }
        match normalize_dir_filter(dirs[i].as_str()) {
            Some(d) => {
                proof {
                    crate::text::lemma_views_push(out_dirs@, d);
                }
                out_dirs.push(d);
            },
            None => {},
        }
        i = i + 1;
    }
    assert(dv.subrange(0, i as int) =~= dv);
    let ghost ev = views(exts@);
    let mut out_exts: Vec<String> = Vec::new();
    let mut k: usize = 0;
    while k < exts.len()
        invariant
            0 <= k <= exts.len(),
            ev == views(exts@),
            views(out_exts@) == ext_filters(ev.subrange(0, k as int)),
        decreases exts.len() - k,
    {
        proof {
            assert(ev.subrange(0, k + 1).drop_last() =~= ev.subrange(0, k as int));
            assert(ev.subrange(0, k + 1).last() == exts@[k as int]@);
        }
        match normalize_ext_filter(exts[k].as_str()) {
            Some(e) => {
                proof {
                    crate::text::lemma_views_push(out_exts@, e);
                }
                out_exts.push(e);
            },
            None => {},
        }
        k = k + 1;
    }
    assert(ev.subrange(0, k as int) =~= ev);
    let rt = match result_type {
        Some(SearchTypeArg::Code) => Some(SearchDocumentType::Code),
        Some(SearchTypeArg::Doc) => Some(SearchDocumentType::Doc),
        None => None,
    };
    SearchFilters { dirs: out_dirs, exts: out_exts, result_type: rt }
}

// ---------------------------------------------------------------------------
// Parse report
// ---------------------------------------------------------------------------

/// What happened to the files of a repository when it was parsed.
pub struct ParseDiagnostics {
    /// Files skipped because no parser handles their extension.
    pub unsupported: Vec<String>,
    /// Files whose parser failed, with the reason.
    pub failed: Vec<(String, String)>,
    /// Files skipped for their size.
    pub oversized: Vec<String>,
    /// Number of files parsed.
    pub parsed_count: usize,
}

/// The failed entries' views.
pub open spec fn failed_views(v: Seq<(String, String)>) -> Seq<(Seq<char>, Seq<char>)> {
    v.map_values(|p: (String, String)| (p.0@, p.1@))
}

/// The lines of a verbose parse report: a summary, then one line per unsupported, failed and
/// oversized file; a cache hit has no report.
pub open spec fn report_lines(
    report: Option<(nat, Seq<Seq<char>>, Seq<(Seq<char>, Seq<char>)>, Seq<Seq<char>>)>,
) -> Seq<Seq<char>> {
    match report {
        None => seq!["verbose: reused cached index; parse report unavailable"@],
        Some((parsed, unsupported, failed, oversized)) => seq![
            "verbose: parsed "@ + decimal(parsed) + " files (unsupported: "@ + decimal(unsupported.len())
                + ", failed: "@ + decimal(failed.len()) + ", oversized: "@ + decimal(oversized.len())
                + ")"@,
        ] + unsupported.map_values(|f: Seq<char>| "unsupported: "@ + f) + failed.map_values(
            |p: (Seq<char>, Seq<char>)| "failed: "@ + p.0 + " ("@ + p.1 + ")"@,
        ) + oversized.map_values(|f: Seq<char>| "oversized: "@ + f),
    }
}

fn push_line(lines: &mut Vec<String>, line: String)
    ensures
        views(final(lines)@) == views(old(lines)@).push(line@),
{
    proof {
        crate::text::lemma_views_push(lines@, line);
    }
    lines.push(line);
}

fn prefixed(prefix: &str, s: &String) -> (r: String)
    ensures
        r@ == prefix@ + s@,
{
    let mut v = to_chars(prefix);
    append_chars(&mut v, &to_chars(s.as_str()));
    from_chars(v.as_slice())
}

/// Format the verbose parse report, one line per entry.
pub fn format_parse_report(report: Option<&ParseDiagnostics>) -> (r: Vec<String>)
    ensures
        views(r@) == report_lines(match report {
            Some(rp) => Some((rp.parsed_count as nat, views(rp.unsupported@), failed_views(rp.failed@), views(rp.oversized@))),
            None => None,
        }),
{
    let mut lines: Vec<String> = Vec::new();
    match report {
        None => {
            push_line(&mut lines, crate::text::string_of("verbose: reused cached index; parse report unavailable"));
            assert(views(lines@) =~= report_lines(None));
            lines
        },
        Some(rp) => {
            let mut head = to_chars("verbose: parsed ");
            append_chars(&mut head, &decimal_usize(rp.parsed_count));
            append_chars(&mut head, &to_chars(" files (unsupported: "));
            append_chars(&mut head, &decimal_usize(rp.unsupported.len()));
            append_chars(&mut head, &to_chars(", failed: "));
            append_chars(&mut head, &decimal_usize(rp.failed.len()));
            append_chars(&mut head, &to_chars(", oversized: "));
            append_chars(&mut head, &decimal_usize(rp.oversized.len()));
            append_chars(&mut head, &to_chars(")"));
            push_line(&mut lines, from_chars(head.as_slice()));
            let ghost uv = views(rp.unsupported@);
            let ghost fv = failed_views(rp.failed@);
            let ghost ov = views(rp.oversized@);
            let ghost l0 = views(lines@);
            let mut i: usize = 0;
            while i < rp.unsupported.len()
                invariant
                    0 <= i <= rp.unsupported.len(),
                    uv == views(rp.unsupported@),
                    views(lines@) == l0 + uv.subrange(0, i as int).map_values(|f: Seq<char>| "unsupported: "@ + f),
                decreases rp.unsupported.len() - i,
            {
                push_line(&mut lines, prefixed("unsupported: ", &rp.unsupported[i]));
                i = i + 1;
                assert(views(lines@) =~= l0 + uv.subrange(0, i as int).map_values(|f: Seq<char>| "unsupported: "@ + f));
            }
            assert(uv.subrange(0, i as int) =~= uv);
            let ghost l1 = views(lines@);
            let mut k: usize = 0;
            while k < rp.failed.len()
                invariant
                    0 <= k <= rp.failed.len(),
                    fv == failed_views(rp.failed@),
                    views(lines@) == l1 + fv.subrange(0, k as int).map_values(
                        |p: (Seq<char>, Seq<char>)| "failed: "@ + p.0 + " ("@ + p.1 + ")"@,
                    ),
                decreases rp.failed.len() - k,
            {
                let (fp, reason) = &rp.failed[k];
                let mut v = to_chars("failed: ");
                append_chars(&mut v, &to_chars(fp.as_str()));
                append_chars(&mut v, &to_chars(" ("));
                append_chars(&mut v, &to_chars(reason.as_str()));
                append_chars(&mut v, &to_chars(")"));
                push_line(&mut lines, from_chars(v.as_slice()));
                k = k + 1;
                assert(views(lines@) =~= l1 + fv.subrange(0, k as int).map_values(
                    |p: (Seq<char>, Seq<char>)| "failed: "@ + p.0 + " ("@ + p.1 + ")"@,
                ));
            }
            assert(fv.subrange(0, k as int) =~= fv);
            let ghost l2 = views(lines@);
            let mut m: usize = 0;
            while m < rp.oversized.len()
                invariant
                    0 <= m <= rp.oversized.len(),
                    ov == views(rp.oversized@),
                    views(lines@) == l2 + ov.subrange(0, m as int).map_values(|f: Seq<char>| "oversized: "@ + f),
                decreases rp.oversized.len() - m,
            {
                push_line(&mut lines, prefixed("oversized: ", &rp.oversized[m]));
                m = m + 1;
                assert(views(lines@) =~= l2 + ov.subrange(0, m as int).map_values(|f: Seq<char>| "oversized: "@ + f));
            }
            assert(ov.subrange(0, m as int) =~= ov);
            assert(views(lines@) =~= report_lines(Some((rp.parsed_count as nat, uv, fv, ov))));
            lines
        },
    }
}

} // verus!
