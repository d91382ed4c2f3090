//! Markdown document parsing and section extraction.
use vstd::prelude::*;
use crate::order::{insert_sorted_unique, lemma_sorted_of_set, sorted_of_set, strictly_sorted};
use crate::text::{
    copy_chars,
    append_chars, char_is_alphabetic, char_is_alphanumeric, clone_strings, from_chars,
    is_ws, lemma_views_push, spec_is_alphabetic, spec_is_alphanumeric, starts_with,
    starts_with_exec, string_of, sub_chars, to_chars, trim, trim_bounds, trim_start,
    trim_start_index, utf8_len, utf8_len_below, views,
};
use crate::tokenizer::{is_text_sep, lemma_text_pieces_nonempty, text_pieces, text_words};
use crate::types::{DocSection, DocSectionView};

verus! {

broadcast use vstd::seq::group_seq_axioms;

// ---------------------------------------------------------------------------
// Lines
// ---------------------------------------------------------------------------

/// A line without the `\r` of a `\r\n` ending.
pub open spec fn strip_cr(l: Seq<char>) -> Seq<char> {
    if l.len() > 0 && l.last() == '\r' {
        l.drop_last()
    } else {
        l
    }
}

/// Finished lines and the line in progress after `k` characters, as `str::lines` splits them.
pub open spec fn lines_state(s: Seq<char>, k: int) -> (Seq<Seq<char>>, Seq<char>)
    decreases k,
{
    if k <= 0 {
        (Seq::empty(), Seq::empty())
    } else {
        let (done, cur) = lines_state(s, k - 1);
        if s[k - 1] == '\n' {
            (done.push(strip_cr(cur)), Seq::empty())
        } else {
            (done, cur.push(s[k - 1]))
        }
    }
}

/// `str::lines`: split at `\n` (dropping a `\r` before it); a last line needs no ending.
pub open spec fn lines_of(s: Seq<char>) -> Seq<Seq<char>> {
    let (done, cur) = lines_state(s, s.len() as int);
    if cur.len() > 0 {
        done.push(cur)
    } else {
        done
    }
}

proof fn lemma_lines_state_len(s: Seq<char>, k: int)
    requires
        0 <= k <= s.len(),
    ensures
        lines_state(s, k).0.len() + (if lines_state(s, k).1.len() > 0 {
            1int
        } else {
            0
        }) <= k,
    decreases k,
{
    if k > 0 {
        lemma_lines_state_len(s, k - 1);
    }
}

/// Exec: `str::lines`.
pub fn split_lines(s: &Vec<char>) -> (r: Vec<Vec<char>>)
    ensures
        r@.map_values(|l: Vec<char>| l@) == lines_of(s@),
        r@.len() <= s@.len(),
{
    let mut done: Vec<Vec<char>> = Vec::new();
    let mut cur: Vec<char> = Vec::new();
    let mut i: usize = 0;
    while i < s.len()
        invariant
            0 <= i <= s.len(),
            done@.map_values(|l: Vec<char>| l@) == lines_state(s@, i as int).0,
            cur@ == lines_state(s@, i as int).1,
        decreases s.len() - i,
    {
        if s[i] == '\n' {
            let mut line = cur;
            if line.len() > 0 && line[line.len() - 1] == '\r' {
                line.pop();
            }
            let ghost lv = line@;
            done.push(line);
            assert(done@.map_values(|l: Vec<char>| l@) =~= lines_state(s@, i as int).0.push(lv));
            cur = Vec::new();
        } else {
            cur.push(s[i]);
        }
        i = i + 1;
    }
    if cur.len() > 0 {
        let ghost cv = cur@;
        done.push(cur);
        assert(done@.map_values(|l: Vec<char>| l@) =~= lines_state(s@, i as int).0.push(cv));
    }
    proof {
        lemma_lines_state_len(s@, s@.len() as int);
    }
    done
}

// ---------------------------------------------------------------------------
// Headings
// ---------------------------------------------------------------------------

/// Number of leading `#` characters.
pub open spec fn leading_hashes(t: Seq<char>) -> nat
    decreases t.len(),
{
    if t.len() > 0 && t[0] == '#' {
        1 + leading_hashes(t.drop_first())
    } else {
        0
    }
}

/// An ATX heading: up to six `#` after optional indentation, a space, and a non-empty title.
pub open spec fn heading_of(line: Seq<char>) -> Option<(u8, Seq<char>)> {
    let t = trim_start(line);
    let h = leading_hashes(t);
    if 1 <= h <= 6 && h < t.len() && t[h as int] == ' ' && trim(t.subrange(
        h as int,
        t.len() as int,
    )).len() > 0 {
        Some((h as u8, trim(t.subrange(h as int, t.len() as int))))
    } else {
        None
    }
}

proof fn lemma_leading_hashes(t: Seq<char>, i: int)
    requires
        0 <= i <= t.len(),
        forall|j: int| 0 <= j < i ==> t[j] == '#',
        i == t.len() || t[i] != '#',
    ensures
        leading_hashes(t) == i,
    decreases i,
{
    if i > 0 {
        assert forall|j: int| 0 <= j < i - 1 implies t.drop_first()[j] == '#' by {
            assert(t[j + 1] == '#');
        }
        lemma_leading_hashes(t.drop_first(), i - 1);
    }
}

fn parse_heading(line: &Vec<char>) -> (r: Option<(u8, Vec<char>)>)
    ensures
        match r {
            Some((d, t)) => heading_of(line@) == Some((d, t@)),
            None => heading_of(line@) is None,
        },
{
    let start = trim_start_index(line, 0, line.len());
    proof {
        assert(line@.subrange(0, line@.len() as int) =~= line@);
    }
    let ghost t = line@.subrange(start as int, line@.len() as int);
    let mut h: usize = 0;
    while start + h < line.len() && line[start + h] == '#'
        invariant
            start <= line.len(),
            start + h <= line.len(),
            t == line@.subrange(start as int, line@.len() as int),
            forall|j: int| 0 <= j < h ==> t[j] == '#',
        decreases line.len() - start - h,
    {
        h = h + 1;
    }
    proof {
        lemma_leading_hashes(t, h as int);
    }
    if h >= 1 && h <= 6 && start + h < line.len() && line[start + h] == ' ' {
        let (a, b) = trim_bounds(line, start + h, line.len());
        proof {
            assert(t.subrange(h as int, t.len() as int) =~= line@.subrange(
                start + h,
                line@.len() as int,
            ));
        }
        if b > a {
            let title = sub_chars(line, a, b);
            return Some((h as u8, title));
        }
    }
    None
}

// ---------------------------------------------------------------------------
// Identifiers in code blocks
// ---------------------------------------------------------------------------

/// A trimmed word that looks like an identifier: at least two bytes, starting with a letter
/// or `_`, made of alphanumerics and `_`.
pub open spec fn ident_like(t: Seq<char>) -> bool {
    &&& utf8_len(t) >= 2
    &&& t.len() > 0
    &&& (spec_is_alphabetic(t[0]) || t[0] == '_')
    &&& forall|i: int| 0 <= i < t.len() ==> spec_is_alphanumeric(#[trigger] t[i]) || t[i] == '_'
}

/// Identifier-like words of a sequence of words, trimmed.
pub open spec fn kept_idents(ws: Seq<Seq<char>>) -> Seq<Seq<char>>
    decreases ws.len(),
{
    if ws.len() == 0 {
        Seq::empty()
    } else if ident_like(trim(ws.last())) {
        kept_idents(ws.drop_last()).push(trim(ws.last()))
    } else {
        kept_idents(ws.drop_last())
    }
}

/// The identifiers of a code block: sorted, each once.
pub open spec fn code_idents(code: Seq<char>) -> Seq<Seq<char>> {
    sorted_of_set(kept_idents(text_words(code)).to_set())
}

proof fn lemma_kept_idents_push(ws: Seq<Seq<char>>, w: Seq<char>)
    ensures
        kept_idents(ws.push(w)) == if ident_like(trim(w)) {
            kept_idents(ws).push(trim(w))
        } else {
            kept_idents(ws)
        },
{
    assert(ws.push(w).drop_last() =~= ws);
}

fn is_ident_like(t: &Vec<char>) -> (r: bool)
    ensures
        r == ident_like(t@),
{
    if utf8_len_below(t, 2) || t.len() == 0 {
        return false;
    }
    if !(char_is_alphabetic(t[0]) || t[0] == '_') {
        return false;
    }
    let mut i: usize = 0;
    while i < t.len()
        invariant
            0 <= i <= t.len(),
            forall|j: int| 0 <= j < i ==> spec_is_alphanumeric(#[trigger] t@[j]) || t@[j] == '_',
        decreases t.len() - i,
    {
        if !(char_is_alphanumeric(t[i]) || t[i] == '_') {
            return false;
        }
        i = i + 1;
    }
    true
}

fn keep_word(word: &Vec<char>, acc: &mut Vec<Vec<char>>, ghost_kept: Ghost<Seq<Seq<char>>>)
    requires
        strictly_sorted(old(acc)@.map_values(|v: Vec<char>| v@)),
        old(acc)@.map_values(|v: Vec<char>| v@).to_set() == ghost_kept@.to_set(),
    ensures
        strictly_sorted(final(acc)@.map_values(|v: Vec<char>| v@)),
        final(acc)@.map_values(|v: Vec<char>| v@).to_set() == (if ident_like(trim(word@)) {
            ghost_kept@.push(trim(word@))
        } else {
            ghost_kept@
        }).to_set(),
{
    let (a, b) = trim_bounds(word, 0, word.len());
    proof {
        assert(word@.subrange(0, word@.len() as int) =~= word@);
    }
    let t = sub_chars(word, a, b);
    if is_ident_like(&t) {
        proof {
            crate::order::lemma_push_to_set(ghost_kept@, t@);
        }
        insert_sorted_unique(acc, t);
    }
}

/// Extract identifier-like tokens from a code block, sorted and without duplicates.
fn extract_code_block_identifiers(code: &Vec<char>) -> (r: Vec<String>)
    ensures
        views(r@) == code_idents(code@),
{
    let ghost s = code@;
    let mut acc: Vec<Vec<char>> = Vec::new();
    let mut word: Vec<char> = Vec::new();
    let mut i: usize = 0;
    proof {
        assert(text_pieces(s, 0).drop_last() =~= Seq::<Seq<char>>::empty());
        assert(acc@.map_values(|v: Vec<char>| v@).to_set() =~= Seq::<Seq<char>>::empty().to_set());
    }
    while i < code.len()
        invariant
            s == code@,
            0 <= i <= code.len(),
            text_pieces(s, i as int).len() > 0,
            strictly_sorted(acc@.map_values(|v: Vec<char>| v@)),
            acc@.map_values(|v: Vec<char>| v@).to_set() == kept_idents(
                text_pieces(s, i as int).drop_last(),
            ).to_set(),
            word@ == text_pieces(s, i as int).last(),
        decreases code.len() - i,
    {
        let ch = code[i];
        let ghost p = text_pieces(s, i as int);
        if !char_is_alphanumeric(ch) && ch != '_' {
            keep_word(&word, &mut acc, Ghost(kept_idents(p.drop_last())));
            word = Vec::new();
            proof {
                assert(p.push(Seq::empty()).drop_last() =~= p);
                assert(p =~= p.drop_last().push(p.last()));
                lemma_kept_idents_push(p.drop_last(), p.last());
            }
        } else {
            word.push(ch);
            proof {
                assert(p.drop_last().push(p.last().push(ch)).drop_last() =~= p.drop_last());
            }
        }
        i = i + 1;
        proof {
            lemma_text_pieces_nonempty(s, i as int);
        }
    }
    let ghost p = text_pieces(s, code.len() as int);
    keep_word(&word, &mut acc, Ghost(kept_idents(p.drop_last())));
    proof {
        assert(p =~= p.drop_last().push(p.last()));
        lemma_kept_idents_push(p.drop_last(), p.last());
        lemma_sorted_of_set(acc@.map_values(|v: Vec<char>| v@));
    }
    let mut r: Vec<String> = Vec::with_capacity(acc.len());
    let mut j: usize = 0;
    while j < acc.len()
        invariant
            0 <= j <= acc.len(),
            views(r@) == acc@.map_values(|v: Vec<char>| v@).subrange(0, j as int),
        decreases acc.len() - j,
    {
        let st = from_chars(acc[j].as_slice());
        proof {
            lemma_views_push(r@, st);
        }
        r.push(st);
        j = j + 1;
        assert(views(r@) =~= acc@.map_values(|v: Vec<char>| v@).subrange(0, j as int));
    }
    assert(acc@.map_values(|v: Vec<char>| v@).subrange(0, j as int) =~= acc@.map_values(
        |v: Vec<char>| v@,
    ));
    r
}

// ---------------------------------------------------------------------------
// Sections
// ---------------------------------------------------------------------------

/// The state of the section splitter between lines.
#[verifier::ext_equal]
pub struct MdState {
    pub sections: Seq<DocSectionView>,
    pub stack: Seq<(u8, Seq<char>)>,
    pub title: Seq<char>,
    pub content: Seq<char>,
    pub code_symbols: Seq<Seq<char>>,
    pub start: u32,
    pub in_code: bool,
    pub code: Seq<char>,
}

pub open spec fn md_initial() -> MdState {
    MdState {
        sections: Seq::empty(),
        stack: Seq::empty(),
        title: Seq::empty(),
        content: Seq::empty(),
        code_symbols: Seq::empty(),
        start: 1,
        in_code: false,
        code: Seq::empty(),
    }
}

/// The titles of the open headings, outermost first.
pub open spec fn stack_titles(stack: Seq<(u8, Seq<char>)>) -> Seq<Seq<char>> {
    stack.map_values(|e: (u8, Seq<char>)| e.1)
}

/// The heading stack once every heading at `depth` or deeper is closed.
pub open spec fn pop_ge(stack: Seq<(u8, Seq<char>)>, depth: u8) -> Seq<(u8, Seq<char>)>
    decreases stack.len(),
{
    if stack.len() > 0 && stack.last().0 >= depth {
        pop_ge(stack.drop_last(), depth)
    } else {
        stack
    }
}

pub open spec fn fence() -> Seq<char> {
    seq!['`', '`', '`']
}

pub open spec fn with_newline(s: Seq<char>, line: Seq<char>) -> Seq<char> {
    s + line + seq!['\n']
}

/// Whether the section being built holds anything worth keeping.
pub open spec fn md_has_section(st: MdState) -> bool {
    st.title.len() > 0 || trim(st.content).len() > 0
}

/// One line of Markdown read into the state; `ln` is its 1-based number.
pub open spec fn md_step(st: MdState, filepath: Seq<char>, line: Seq<char>, ln: u32) -> MdState {
    if starts_with(trim_start(line), fence()) {
        if st.in_code {
            MdState {
                code_symbols: st.code_symbols + code_idents(st.code),
                code: Seq::empty(),
                in_code: false,
                content: with_newline(st.content, line),
                ..st
            }
        } else {
            MdState { in_code: true, content: with_newline(st.content, line), ..st }
        }
    } else if st.in_code {
        MdState {
            code: with_newline(st.code, line),
            content: with_newline(st.content, line),
            ..st
        }
    } else {
        match heading_of(line) {
            Some((d, t)) => MdState {
                sections: if md_has_section(st) {
                    st.sections.push(
                        DocSectionView {
                            filepath,
                            section_title: st.title,
                            heading_hierarchy: stack_titles(st.stack),
                            content: trim(st.content),
                            code_symbols: st.code_symbols,
                            start_line: st.start,
                            end_line: (ln - 1) as u32,
                        },
                    )
                } else {
                    st.sections
                },
                stack: pop_ge(st.stack, d).push((d, t)),
                title: t,
                content: Seq::empty(),
                code_symbols: Seq::empty(),
                start: ln,
                ..st
            },
            None => MdState { content: with_newline(st.content, line), ..st },
        }
    }
}

/// The state after the first `k` lines.
pub open spec fn md_fold(filepath: Seq<char>, lines: Seq<Seq<char>>, k: int) -> MdState
    decreases k,
{
    if k <= 0 {
        md_initial()
    } else {
        md_step(md_fold(filepath, lines, k - 1), filepath, lines[k - 1], k as u32)
    }
}

/// `parse_markdown` over the character views of its arguments.
pub open spec fn parse_markdown_spec(source: Seq<char>, filepath: Seq<char>) -> Seq<DocSectionView> {
    let ls = lines_of(source);
    let st = md_fold(filepath, ls, ls.len() as int);
    let total = ls.len() as u32;
    let flushed = if md_has_section(st) {
        st.sections.push(
            DocSectionView {
                filepath,
                section_title: if st.title.len() == 0 {
                    "Introduction"@
                } else {
                    st.title
                },
                heading_hierarchy: stack_titles(st.stack),
                content: trim(st.content),
                code_symbols: st.code_symbols,
                start_line: st.start,
                end_line: total,
            },
        )
    } else {
        st.sections
    };
    if flushed.len() == 0 && trim(source).len() > 0 {
        seq![
            DocSectionView {
                filepath,
                section_title: "Introduction"@,
                heading_hierarchy: Seq::empty(),
                content: trim(source),
                code_symbols: code_idents(source),
                start_line: 1,
                end_line: total,
            },
        ]
    } else {
        flushed
    }
}

struct State {
    sections: Vec<DocSection>,
    stack: Vec<(u8, Vec<char>)>,
    title: Vec<char>,
    content: Vec<char>,
    code_symbols: Vec<String>,
    start: u32,
    in_code: bool,
    code: Vec<char>,
}

impl State {
    spec fn view_state(&self) -> MdState {
        MdState {
            sections: self.sections@.map_values(|d: DocSection| d@),
            stack: self.stack@.map_values(|e: (u8, Vec<char>)| (e.0, e.1@)),
            title: self.title@,
            content: self.content@,
            code_symbols: views(self.code_symbols@),
            start: self.start,
            in_code: self.in_code,
            code: self.code@,
        }
    }
}

fn stack_titles_exec(stack: &Vec<(u8, Vec<char>)>) -> (r: Vec<String>)
    ensures
        views(r@) == stack_titles(stack@.map_values(|e: (u8, Vec<char>)| (e.0, e.1@))),
{
    let ghost sv = stack@.map_values(|e: (u8, Vec<char>)| (e.0, e.1@));
    let mut r: Vec<String> = Vec::with_capacity(stack.len());
    let mut i: usize = 0;
    while i < stack.len()
        invariant
            0 <= i <= stack.len(),
            sv == stack@.map_values(|e: (u8, Vec<char>)| (e.0, e.1@)),
            views(r@) == stack_titles(sv).subrange(0, i as int),
        decreases stack.len() - i,
    {
        let t = from_chars(stack[i].1.as_slice());
        proof {
            lemma_views_push(r@, t);
        }
        r.push(t);
        i = i + 1;
        assert(views(r@) =~= stack_titles(sv).subrange(0, i as int));
    }
    assert(stack_titles(sv).subrange(0, i as int) =~= stack_titles(sv));
    r
}

fn trimmed(v: &Vec<char>) -> (r: Vec<char>)
    ensures
        r@ == trim(v@),
{
    let (a, b) = trim_bounds(v, 0, v.len());
    proof {
        assert(v@.subrange(0, v@.len() as int) =~= v@);
    }
    sub_chars(v, a, b)
}

fn make_section(
    filepath: &str,
    title: Vec<char>,
    stack: &Vec<(u8, Vec<char>)>,
    content: &Vec<char>,
    code_symbols: Vec<String>,
    start: u32,
    end: u32,
) -> (r: DocSection)
    ensures
        r@ == (DocSectionView {
            filepath: filepath@,
            section_title: title@,
            heading_hierarchy: stack_titles(stack@.map_values(|e: (u8, Vec<char>)| (e.0, e.1@))),
            content: trim(content@),
            code_symbols: views(code_symbols@),
            start_line: start,
            end_line: end,
        }),
{
    let c = trimmed(content);
    DocSection {
        filepath: string_of(filepath),
        section_title: from_chars(title.as_slice()),
        heading_hierarchy: stack_titles_exec(stack),
        content: from_chars(c.as_slice()),
        code_symbols,
        start_line: start,
        end_line: end,
    }
}

fn pop_ge_exec(stack: &mut Vec<(u8, Vec<char>)>, depth: u8)
    ensures
        final(stack)@.map_values(|e: (u8, Vec<char>)| (e.0, e.1@)) == pop_ge(
            old(stack)@.map_values(|e: (u8, Vec<char>)| (e.0, e.1@)),
            depth,
        ),
{
    while stack.len() > 0 && stack[stack.len() - 1].0 >= depth
        invariant
            pop_ge(old(stack)@.map_values(|e: (u8, Vec<char>)| (e.0, e.1@)), depth) == pop_ge(
                stack@.map_values(|e: (u8, Vec<char>)| (e.0, e.1@)),
                depth,
            ),
        decreases stack.len(),
    {
        let ghost sv = stack@.map_values(|e: (u8, Vec<char>)| (e.0, e.1@));
        stack.pop();
        assert(stack@.map_values(|e: (u8, Vec<char>)| (e.0, e.1@)) =~= sv.drop_last());
    }
}

fn push_line(content: &mut Vec<char>, line: &Vec<char>)
    ensures
        final(content)@ == with_newline(old(content)@, line@),
{
    append_chars(content, line);
    content.push('\n');
}

fn has_section(title: &Vec<char>, content: &Vec<char>) -> (r: bool)
    ensures
        r == (title@.len() > 0 || trim(content@).len() > 0),
{
    if title.len() > 0 {
        return true;
    }
    let (a, b) = trim_bounds(content, 0, content.len());
    proof {
        assert(content@.subrange(0, content@.len() as int) =~= content@);
    }
    b > a
}

fn step(st: &mut State, filepath: &str, line: &Vec<char>, ln: u32)
    requires
        ln >= 1,
    ensures
        final(st).view_state() == md_step(old(st).view_state(), filepath@, line@, ln),
{
    let ghost s0 = st.view_state();
    let ts = trim_start_index(line, 0, line.len());
    proof {
        assert(line@.subrange(0, line@.len() as int) =~= line@);
    }
    let tl = sub_chars(line, ts, line.len());
    let fence_v = to_chars("```");
    proof {
        reveal_strlit("```");
        assert(fence_v@ =~= fence());
    }
    if starts_with_exec(&tl, &fence_v) {
        assert(starts_with(trim_start(line@), fence()));
        assert(st.view_state().sections == s0.sections);
        if st.in_code {
            let syms = extract_code_block_identifiers(&st.code);
            crate::text::extend_strings(&mut st.code_symbols, syms);
            st.code = Vec::new();
            st.in_code = false;
        } else {
            st.in_code = true;
        }
        push_line(&mut st.content, line);
        let ghost want = md_step(s0, filepath@, line@, ln);
        assert(st.view_state().sections =~= want.sections);
        assert(st.view_state().stack =~= want.stack);
        assert(st.view_state().code_symbols =~= want.code_symbols);
        assert(st.view_state().content =~= want.content);
        assert(st.view_state().code =~= want.code);
        assert(st.view_state() =~= md_step(s0, filepath@, line@, ln));
        return;
    }
    if st.in_code {
        push_line(&mut st.code, line);
        push_line(&mut st.content, line);
        assert(st.view_state() =~= md_step(s0, filepath@, line@, ln));
        return;
    }
    match parse_heading(line) {
        Some((depth, title)) => {
            if has_section(&st.title, &st.content) {
                let t = copy_chars(&st.title);
                let cs = clone_strings(&st.code_symbols);
                let sec = make_section(filepath, t, &st.stack, &st.content, cs, st.start, ln - 1);
                let ghost secs = st.sections@.map_values(|d: DocSection| d@);
                st.sections.push(sec);
                assert(st.sections@.map_values(|d: DocSection| d@) =~= secs.push(sec@));
            }
            pop_ge_exec(&mut st.stack, depth);
            let ghost sv = st.stack@.map_values(|e: (u8, Vec<char>)| (e.0, e.1@));
            let title_copy = copy_chars(&title);
            st.stack.push((depth, title_copy));
            assert(st.stack@.map_values(|e: (u8, Vec<char>)| (e.0, e.1@)) =~= sv.push((depth, title@)));
            st.title = title;
            st.content = Vec::new();
            st.code_symbols = Vec::new();
            st.start = ln;
            assert(st.view_state().sections =~= md_step(s0, filepath@, line@, ln).sections);
            assert(st.view_state() =~= md_step(s0, filepath@, line@, ln));
        },
        None => {
            push_line(&mut st.content, line);
            assert(st.view_state() =~= md_step(s0, filepath@, line@, ln));
        },
    }
}

/// Parse a markdown file into sections split by headings.
///
/// Each heading opens a section that runs to the next heading; text before the first heading
/// forms an `Introduction` section. Fenced code blocks are never split, and the identifiers
/// in them are recorded on the section.
pub fn parse_markdown(source: &str, filepath: &str) -> (r: Vec<DocSection>)
    requires
        source@.len() < u32::MAX,
    ensures
        r@.map_values(|d: DocSection| d@) == parse_markdown_spec(source@, filepath@),
{
    let src = to_chars(source);
    let lines = split_lines(&src);
    let ghost ls = lines_of(source@);
    let mut st = State {
        sections: Vec::new(),
        stack: Vec::new(),
        title: Vec::new(),
        content: Vec::new(),
        code_symbols: Vec::new(),
        start: 1,
        in_code: false,
        code: Vec::new(),
    };
    assert(st.view_state() =~= md_initial());
    let mut i: usize = 0;
    while i < lines.len()
        invariant
            0 <= i <= lines.len(),
            lines.len() < u32::MAX,
            lines@.map_values(|l: Vec<char>| l@) == ls,
            st.view_state() == md_fold(filepath@, ls, i as int),
        decreases lines.len() - i,
    {
        let ln = (i as u32) + 1;
        step(&mut st, filepath, &lines[i], ln);
        i = i + 1;
    }
    let total = lines.len() as u32;
    if has_section(&st.title, &st.content) {
        let title = if st.title.len() == 0 {
            to_chars("Introduction")
        } else {
            copy_chars(&st.title)
        };
        let cs = clone_strings(&st.code_symbols);
        let sec = make_section(filepath, title, &st.stack, &st.content, cs, st.start, total);
        let ghost secs = st.sections@.map_values(|d: DocSection| d@);
        st.sections.push(sec);
        assert(st.sections@.map_values(|d: DocSection| d@) =~= secs.push(sec@));
    }
    let ghost flushed = st.sections@.map_values(|d: DocSection| d@);
    if st.sections.len() == 0 {
        let (a, b) = trim_bounds(&src, 0, src.len());
        proof {
            assert(src@.subrange(0, src@.len() as int) =~= src@);
        }
        if b > a {
            let syms = extract_code_block_identifiers(&src);
            let empty_stack: Vec<(u8, Vec<char>)> = Vec::new();
            assert(stack_titles(empty_stack@.map_values(|e: (u8, Vec<char>)| (e.0, e.1@))) =~= Seq::<Seq<char>>::empty());
            let sec = make_section(
                filepath,
                to_chars("Introduction"),
                &empty_stack,
                &src,
                syms,
                1,
                total,
            );
            let mut out: Vec<DocSection> = Vec::new();
            out.push(sec);
            assert(out@.map_values(|d: DocSection| d@) =~= parse_markdown_spec(source@, filepath@));
            return out;
        }
    }
    assert(st.sections@.map_values(|d: DocSection| d@) =~= parse_markdown_spec(source@, filepath@));
    st.sections
}


// ---------------------------------------------------------------------------
// Laws
// ---------------------------------------------------------------------------

proof fn lemma_trim_start_skips_blanks(ws: Seq<char>, x: Seq<char>)
    requires
        forall|i: int| 0 <= i < ws.len() ==> ws[i] == ' ' || ws[i] == '\t',
    ensures
        trim_start(ws + x) == trim_start(x),
    decreases ws.len(),
{
    if ws.len() > 0 {
        assert(is_ws(ws[0]));
        assert((ws + x)[0] == ws[0]);
        assert((ws + x).drop_first() =~= ws.drop_first() + x);
        lemma_trim_start_skips_blanks(ws.drop_first(), x);
    } else {
        assert(ws + x =~= x);
    }
}

/// A line that starts with three backticks after leading spaces or tabs opens or closes a
/// fenced code block, indented fences included, and opens no section.
pub proof fn lemma_fence_line_toggles_code(st: MdState, filepath: Seq<char>, ws: Seq<char>, rest: Seq<char>, ln: u32)
    requires
        forall|i: int| 0 <= i < ws.len() ==> ws[i] == ' ' || ws[i] == '\t',
    ensures
        ({
            let next = md_step(st, filepath, ws + seq!['`', '`', '`'] + rest, ln);
            &&& next.in_code == !st.in_code
            &&& next.sections == st.sections
            &&& next.stack == st.stack
            &&& next.title == st.title
            &&& (st.in_code ==> next.code_symbols == st.code_symbols + code_idents(st.code) && next.code.len() == 0)
        }),
{
    let f = seq!['`', '`', '`'];
    assert(ws + f + rest =~= ws + (f + rest));
    lemma_trim_start_skips_blanks(ws, f + rest);
    assert(!is_ws((f + rest)[0]));
    assert(trim_start(f + rest) == f + rest);
    assert((f + rest).subrange(0, 3) =~= f);
    assert(f =~= fence());
}

/// Outside a code block, a line of one to six `#`, a space and a title that is not blank opens
/// a section: the title (trimmed) becomes the current title at that depth from this line on,
/// and the section built so far, if it holds anything, is closed.
pub proof fn lemma_heading_opens_section(st: MdState, filepath: Seq<char>, hashes: Seq<char>, title: Seq<char>, ln: u32)
    requires
        !st.in_code,
        1 <= hashes.len() <= 6,
        forall|i: int| 0 <= i < hashes.len() ==> hashes[i] == '#',
        trim(seq![' '] + title).len() > 0,
    ensures
        ({
            let next = md_step(st, filepath, hashes + seq![' '] + title, ln);
            &&& next.title == trim(seq![' '] + title)
            &&& next.stack.last() == (hashes.len() as u8, trim(seq![' '] + title))
            &&& next.start == ln
            &&& next.sections.len() == st.sections.len() + if md_has_section(st) { 1int } else { 0int }
        }),
{
    let line = hashes + seq![' '] + title;
    let d = hashes.len() as int;
    assert(line[0] == '#');
    assert(!is_ws(line[0]));
    assert(trim_start(line) == line);
    assert forall|j: int| 0 <= j < d implies line[j] == '#' by {
        assert(line[j] == hashes[j]);
    }
    assert(line[d] == ' ');
    lemma_leading_hashes(line, d);
    assert(line.subrange(d, line.len() as int) =~= seq![' '] + title);
    assert(!starts_with(trim_start(line), fence())) by {
        if line.len() >= 3 {
            assert(line.subrange(0, 3)[0] == line[0]);
            assert(fence()[0] == '`');
        }
    }
}

/// Inside a fenced code block, a line that is not a fence only adds to the block: it opens no
/// section (a `#` line there is code, not a heading), and the heading stack and title stay.
pub proof fn lemma_code_lines_open_no_section(st: MdState, filepath: Seq<char>, line: Seq<char>, ln: u32)
    requires
        st.in_code,
        !starts_with(trim_start(line), seq!['`', '`', '`']),
    ensures
        ({
            let next = md_step(st, filepath, line, ln);
            &&& next.in_code
            &&& next.sections == st.sections
            &&& next.stack == st.stack
            &&& next.title == st.title
            &&& next.code == st.code + line + seq!['\n']
        }),
{
    assert(seq!['`', '`', '`'] =~= fence());
}

/// A well-formed section of file `filepath`: its path, a range of lines from line 1 on, and a
/// heading hierarchy that, when present, ends with the section's own title.
pub open spec fn section_ok(s: DocSectionView, filepath: Seq<char>) -> bool {
    &&& s.filepath == filepath
    &&& 1 <= s.start_line <= s.end_line
    &&& (s.heading_hierarchy.len() == 0 || s.heading_hierarchy.last() == s.section_title)
}

/// Sections in file order: each ends before the next starts.
pub open spec fn sections_ordered(ss: Seq<DocSectionView>) -> bool {
    forall|i: int, j: int| 0 <= i < j < ss.len() ==> (#[trigger] ss[i]).end_line < (#[trigger] ss[j]).start_line
}

spec fn md_inv(st: MdState, filepath: Seq<char>, k: int) -> bool {
    &&& 1 <= st.start
    &&& (st.start <= k || (k == 0 && st == md_initial()))
    &&& sections_ordered(st.sections)
    &&& forall|i: int| 0 <= i < st.sections.len() ==> (#[trigger] st.sections[i]).end_line < st.start
    &&& forall|i: int| 0 <= i < st.sections.len() ==> section_ok(#[trigger] st.sections[i], filepath)
    &&& ((st.stack.len() == 0 && st.title.len() == 0) || (st.stack.len() > 0 && st.stack.last().1 == st.title
        && st.title.len() > 0))
}

proof fn lemma_md_fold_inv(filepath: Seq<char>, lines: Seq<Seq<char>>, k: int)
    requires
        0 <= k <= lines.len(),
        lines.len() < u32::MAX,
    ensures
        md_inv(md_fold(filepath, lines, k), filepath, k),
    decreases k,
{
    if k > 0 {
        lemma_md_fold_inv(filepath, lines, k - 1);
        let st = md_fold(filepath, lines, k - 1);
        let line = lines[k - 1];
        let next = md_fold(filepath, lines, k);
        assert(next == md_step(st, filepath, line, k as u32));
        if !starts_with(trim_start(line), fence()) && !st.in_code {
            if let Some((d, t)) = heading_of(line) {
                let stack2 = pop_ge(st.stack, d).push((d, t));
                assert(stack2.last() == (d, t));
                if md_has_section(st) {
                    let sec = DocSectionView {
                        filepath,
                        section_title: st.title,
                        heading_hierarchy: stack_titles(st.stack),
                        content: trim(st.content),
                        code_symbols: st.code_symbols,
                        start_line: st.start,
                        end_line: (k - 1) as u32,
                    };
                    assert(st != md_initial()) by {
                        if st == md_initial() {
                            assert(trim_start(Seq::<char>::empty()) == Seq::<char>::empty());
                            assert(trim(Seq::<char>::empty()).len() == 0);
                        }
                    }
                    assert(next.sections == st.sections.push(sec));
                    if st.stack.len() > 0 {
                        assert(stack_titles(st.stack).last() == st.stack.last().1);
                    }
                    assert(section_ok(sec, filepath));
                    assert forall|i: int| 0 <= i < next.sections.len() implies section_ok(#[trigger] next.sections[i], filepath) by {
                        if i < st.sections.len() {
                            assert(next.sections[i] == st.sections[i]);
                        }
                    }
                    assert forall|i: int| 0 <= i < next.sections.len() implies (#[trigger] next.sections[i]).end_line < next.start by {
                        if i < st.sections.len() {
                            assert(next.sections[i] == st.sections[i]);
                        }
                    }
                    assert forall|i: int, j: int| 0 <= i < j < next.sections.len() implies (#[trigger] next.sections[i]).end_line < (#[trigger] next.sections[j]).start_line by {
                        assert(next.sections[i] == st.sections[i]);
                        if j < st.sections.len() {
                            assert(next.sections[j] == st.sections[j]);
                        }
                    }
                }
            }
        }
    }
}

proof fn lemma_lines_nonempty(s: Seq<char>, k: int)
    requires
        1 <= k <= s.len(),
    ensures
        lines_state(s, k).0.len() > 0 || lines_state(s, k).1.len() > 0,
    decreases k,
{
    if k > 1 {
        lemma_lines_nonempty(s, k - 1);
    }
}

/// The sections of a Markdown file come in file order with valid line ranges, each carries the
/// file's path, and a section's heading hierarchy, when present, ends with its own title.
pub proof fn lemma_sections_in_order(source: Seq<char>, filepath: Seq<char>)
    requires
        source.len() < u32::MAX,
    ensures
        sections_ordered(parse_markdown_spec(source, filepath)),
        forall|i: int|
            0 <= i < parse_markdown_spec(source, filepath).len() ==> section_ok(
                #[trigger] parse_markdown_spec(source, filepath)[i],
                filepath,
            ),
{
    let ls = lines_of(source);
    lemma_lines_state_len(source, source.len() as int);
    assert(ls.len() <= source.len());
    let n = ls.len() as int;
    lemma_md_fold_inv(filepath, ls, n);
    let st = md_fold(filepath, ls, n);
    let total = n as u32;
    let ss = parse_markdown_spec(source, filepath);
    if md_has_section(st) {
        assert(st != md_initial()) by {
            if st == md_initial() {
                assert(trim_start(Seq::<char>::empty()) == Seq::<char>::empty());
                assert(trim(Seq::<char>::empty()).len() == 0);
            }
        }
        let title = if st.title.len() == 0 { "Introduction"@ } else { st.title };
        let sec = DocSectionView {
            filepath,
            section_title: title,
            heading_hierarchy: stack_titles(st.stack),
            content: trim(st.content),
            code_symbols: st.code_symbols,
            start_line: st.start,
            end_line: total,
        };
        let flushed = st.sections.push(sec);
        assert(total as int == n);
        if st.stack.len() > 0 {
            assert(stack_titles(st.stack).last() == st.stack.last().1);
        } else {
            assert(stack_titles(st.stack) =~= Seq::<Seq<char>>::empty());
        }
        assert(section_ok(sec, filepath));
        assert(ss == flushed);
        assert forall|i: int| 0 <= i < flushed.len() implies section_ok(#[trigger] flushed[i], filepath) by {
            if i < st.sections.len() {
                assert(flushed[i] == st.sections[i]);
            }
        }
        assert forall|i: int, j: int| 0 <= i < j < flushed.len() implies (#[trigger] flushed[i]).end_line < (#[trigger] flushed[j]).start_line by {
            assert(flushed[i] == st.sections[i]);
            if j < st.sections.len() {
                assert(flushed[j] == st.sections[j]);
            }
        }
    } else if st.sections.len() == 0 && trim(source).len() > 0 {
        if source.len() == 0 {
            assert(trim_start(source) == source);
        }
        assert(source.len() > 0);
        lemma_lines_nonempty(source, source.len() as int);
        assert(ls.len() > 0);
        let sec = DocSectionView {
            filepath,
            section_title: "Introduction"@,
            heading_hierarchy: Seq::empty(),
            content: trim(source),
            code_symbols: code_idents(source),
            start_line: 1,
            end_line: total,
        };
        assert(ss == seq![sec]);
        assert(n > 0 && n < u32::MAX);
        assert(total as int == n);
        assert(sec.heading_hierarchy.len() == 0);
        assert(section_ok(sec, filepath));
        assert(ss[0] == sec);
    }
}

} // verus!
