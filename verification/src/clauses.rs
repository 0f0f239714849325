//! Splitting predicate text into clauses at top-level keywords, and scanning it for
//! the identifiers it names.
use vstd::prelude::*;

use crate::predicate_text::{
    inverted, normalized_comparison, parse_comparison_from, NormalizedRepairComparison, ParsedRepairComparison,
    TotalOrderRelation,
    is_alpha, is_ident_char, is_plain_identifier, is_white, is_whitespace, plain_identifier, lemma_strip_parens_len, lemma_trim_len, normalized_clause, normalized_predicate_clause,
    not_operand, occurs_at, occurs_here, split_once, split_once_view, strip_balanced_outer_parens, strip_parens, string_from,
    stripped_not_operand, trim, trimmed,
};
use crate::numeric::{compact_direct_repair_expression_text, direct_expression, direct_expression_safe};
use crate::text::{chars_of, contains_str, has_prefix, push_char, str_eq, string_of};

verus! {

/// Whether `c` may start an identifier: an ASCII letter or `_`.
pub open spec fn ident_start(c: char) -> bool {
    is_alpha(c) || c == '_'
}

/// Whether `c` may start an identifier.
pub fn is_ident_start(ch: char) -> (r: bool)
    ensures
        r == ident_start(ch),
{
    ('a' <= ch && ch <= 'z') || ('A' <= ch && ch <= 'Z') || ch == '_'
}

/// Whether `c` may continue an identifier: an ASCII letter, digit or `_`.
pub fn is_ident_continue(ch: char) -> (r: bool)
    ensures
        r == is_ident_char(ch),
{
    ('a' <= ch && ch <= 'z') || ('A' <= ch && ch <= 'Z') || ('0' <= ch && ch <= '9') || ch == '_'
}

/// Whether the characters `s[start..end]` stand apart from any identifier around them:
/// neither the character before nor the one after continues an identifier.
pub open spec fn word_boundary(s: Seq<char>, start: int, end: int) -> bool {
    (start <= 0 || !is_ident_char(s[start - 1])) && (end >= s.len() || !is_ident_char(s[end]))
}

fn boundary_at(v: &Vec<char>, start: usize, end: usize) -> (r: bool)
    requires
        start <= end <= v@.len(),
    ensures
        r == word_boundary(v@, start as int, end as int),
{
    let before = start == 0 || !is_ident_continue(v[start - 1]);
    let after = end >= v.len() || !is_ident_continue(v[end]);
    before && after
}

/// Whether the character positions `start..end` of `text` stand apart from any
/// identifier around them.
pub fn is_word_boundary(text: &str, start: usize, end: usize) -> (r: bool)
    requires
        start <= end <= text@.len(),
    ensures
        r == word_boundary(text@, start as int, end as int),
{
    let v = chars_of(text);
    boundary_at(&v, start, end)
}

/// The clauses of `s` between the occurrences of `kw` that stand at parenthesis depth
/// zero, outside string literals, and as a whole word; read from position `cursor` on,
/// with the current clause starting at `start` and `acc` holding the clauses before it.
pub open spec fn split_scan(
    s: Seq<char>,
    kw: Seq<char>,
    cursor: int,
    start: int,
    depth: nat,
    in_string: bool,
    escaped: bool,
    acc: Seq<Seq<char>>,
) -> Seq<Seq<char>>
    decreases s.len() - cursor,
{
    if cursor < 0 || cursor >= s.len() {
        acc.push(s.subrange(start, s.len() as int))
    } else {
        let ch = s[cursor];
        if in_string {
            if escaped {
                split_scan(s, kw, cursor + 1, start, depth, true, false, acc)
            } else if ch == '\\' {
                split_scan(s, kw, cursor + 1, start, depth, true, true, acc)
            } else if ch == '"' {
                split_scan(s, kw, cursor + 1, start, depth, false, false, acc)
            } else {
                split_scan(s, kw, cursor + 1, start, depth, true, false, acc)
            }
        } else if ch == '"' {
            split_scan(s, kw, cursor + 1, start, depth, true, false, acc)
        } else if ch == '(' {
            split_scan(s, kw, cursor + 1, start, depth + 1, false, false, acc)
        } else if ch == ')' {
            split_scan(s, kw, cursor + 1, start, if depth == 0 { 0 } else { (depth - 1) as nat }, false, false, acc)
        } else if depth == 0 && kw.len() > 0 && occurs_at(s, kw, cursor) && word_boundary(s, cursor, cursor + kw.len()) {
            split_scan(s, kw, cursor + kw.len(), cursor + kw.len(), depth, false, false, acc.push(s.subrange(start, cursor)))
        } else {
            split_scan(s, kw, cursor + 1, start, depth, false, false, acc)
        }
    }
}

/// The clauses of `s` between its top-level occurrences of the word `kw`.
pub open spec fn split_top(s: Seq<char>, kw: Seq<char>) -> Seq<Seq<char>> {
    split_scan(s, kw, 0, 0, 0, false, false, Seq::empty())
}

/// Clauses joined back together with `kw` between them.
pub open spec fn join_with(ps: Seq<Seq<char>>, kw: Seq<char>) -> Seq<char>
    decreases ps.len(),
{
    if ps.len() == 0 {
        Seq::empty()
    } else if ps.len() == 1 {
        ps[0]
    } else {
        join_with(ps.drop_last(), kw) + kw + ps.last()
    }
}

/// The clauses of `predicate` between its top-level occurrences of the word `keyword`
/// (outside parentheses and string literals), in order.
pub fn split_top_level_keyword(predicate: &str, keyword: &str) -> (r: Vec<String>)
    requires
        keyword@.len() > 0,
    ensures
        r.deep_view() == split_top(predicate@, keyword@),
{
    let v = chars_of(predicate);
    let kv = chars_of(keyword);
    let n = v.len();
    let mut clauses: Vec<String> = Vec::new();
    let mut start: usize = 0;
    let mut depth: usize = 0;
    let mut in_string = false;
    let mut escaped = false;
    let mut cursor: usize = 0;
    assert(clauses.deep_view() =~= Seq::<Seq<char>>::empty());
    while cursor < n
        invariant
            n == v@.len(),
            v@ == predicate@,
            kv@ == keyword@,
            kv@.len() > 0,
            start <= cursor <= n,
            depth <= cursor,
            !in_string ==> !escaped,
            split_top(predicate@, keyword@) == split_scan(v@, kv@, cursor as int, start as int, depth as nat, in_string, escaped, clauses.deep_view()),
        decreases n - cursor,
    {
        let ch = v[cursor];
        if in_string {
            if escaped {
                escaped = false;
            } else if ch == '\\' {
                escaped = true;
            } else if ch == '"' {
                in_string = false;
            }
            cursor += 1;
            continue;
        }
        if ch == '"' {
            in_string = true;
        } else if ch == '(' {
            depth += 1;
        } else if ch == ')' {
            depth = if depth == 0 { 0 } else { depth - 1 };
        } else if depth == 0 && kv.len() <= n - cursor && occurs_here(&v, &kv, cursor)
            && boundary_at(&v, cursor, cursor + kv.len()) {
            let ghost before = clauses.deep_view();
            let piece = string_from(&v, start, cursor);
            clauses.push(piece);
            assert(clauses.deep_view() =~= before.push(v@.subrange(start as int, cursor as int)));
            cursor = cursor + kv.len();
            start = cursor;
            continue;
        }
        cursor += 1;
    }
    let ghost before = clauses.deep_view();
    let last = string_from(&v, start, n);
    clauses.push(last);
    assert(clauses.deep_view() =~= before.push(v@.subrange(start as int, n as int)));
    clauses
}

/// The text read so far: the clauses before the current one, each followed by the
/// keyword.
pub open spec fn read_before(acc: Seq<Seq<char>>, kw: Seq<char>) -> Seq<char> {
    if acc.len() == 0 { Seq::empty() } else { join_with(acc, kw) + kw }
}

proof fn lemma_join_push(acc: Seq<Seq<char>>, kw: Seq<char>, piece: Seq<char>)
    ensures
        join_with(acc.push(piece), kw) == read_before(acc, kw) + piece,
{
    let ps = acc.push(piece);
    assert(ps.drop_last() =~= acc);
    if acc.len() == 0 {
        assert(ps.len() == 1);
        assert(read_before(acc, kw) + piece =~= piece);
    }
}

proof fn lemma_scan_rejoins(
    s: Seq<char>,
    kw: Seq<char>,
    cursor: int,
    start: int,
    depth: nat,
    in_string: bool,
    escaped: bool,
    acc: Seq<Seq<char>>,
)
    requires
        0 <= start <= cursor <= s.len(),
        s.subrange(0, start) == read_before(acc, kw),
    ensures
        join_with(split_scan(s, kw, cursor, start, depth, in_string, escaped, acc), kw) == s,
    decreases s.len() - cursor,
{
    if cursor >= s.len() {
        lemma_join_push(acc, kw, s.subrange(start, s.len() as int));
        assert(s.subrange(0, start) + s.subrange(start, s.len() as int) =~= s);
    } else {
        let ch = s[cursor];
        if in_string {
            if escaped {
                lemma_scan_rejoins(s, kw, cursor + 1, start, depth, true, false, acc);
            } else if ch == '\\' {
                lemma_scan_rejoins(s, kw, cursor + 1, start, depth, true, true, acc);
            } else if ch == '"' {
                lemma_scan_rejoins(s, kw, cursor + 1, start, depth, false, false, acc);
            } else {
                lemma_scan_rejoins(s, kw, cursor + 1, start, depth, true, false, acc);
            }
        } else if ch == '"' {
            lemma_scan_rejoins(s, kw, cursor + 1, start, depth, true, false, acc);
        } else if ch == '(' {
            lemma_scan_rejoins(s, kw, cursor + 1, start, depth + 1, false, false, acc);
        } else if ch == ')' {
            lemma_scan_rejoins(s, kw, cursor + 1, start, if depth == 0 { 0 } else { (depth - 1) as nat }, false, false, acc);
        } else if depth == 0 && kw.len() > 0 && occurs_at(s, kw, cursor) && word_boundary(s, cursor, cursor + kw.len()) {
            let piece = s.subrange(start, cursor);
            let acc2 = acc.push(piece);
            let next = cursor + kw.len();
            lemma_join_push(acc, kw, piece);
            assert(s.subrange(0, next) =~= s.subrange(0, start) + piece + kw);
            lemma_scan_rejoins(s, kw, next, next, depth, false, false, acc2);
        } else {
            lemma_scan_rejoins(s, kw, cursor + 1, start, depth, false, false, acc);
        }
    }
}

/// Joining the clauses of a top-level split with the keyword gives back the text that
/// was split.
pub proof fn law_split_rejoins(s: Seq<char>, kw: Seq<char>)
    ensures
        join_with(split_top(s, kw), kw) == s,
{
    assert(s.subrange(0, 0) =~= read_before(Seq::empty(), kw));
    lemma_scan_rejoins(s, kw, 0, 0, 0, false, false, Seq::empty());
}

/// With two or more clauses, each clause is shorter than the text joined from them.
proof fn lemma_join_pieces_shorter(ps: Seq<Seq<char>>, kw: Seq<char>)
    requires
        kw.len() > 0,
        ps.len() >= 2,
    ensures
        forall|i: int| 0 <= i < ps.len() ==> (#[trigger] ps[i]).len() < join_with(ps, kw).len(),
    decreases ps.len(),
{
    let init = ps.drop_last();
    if ps.len() > 2 {
        lemma_join_pieces_shorter(init, kw);
    }
    assert forall|i: int| 0 <= i < ps.len() implies (#[trigger] ps[i]).len() < join_with(ps, kw).len() by {
        if i < ps.len() - 1 {
            assert(ps[i] == init[i]);
            if ps.len() == 2 {
                assert(join_with(init, kw) == init[0]);
            }
        }
    }
}

/// When the split gives two or more clauses, each is shorter than the text.
pub proof fn lemma_split_pieces_shorter(s: Seq<char>, kw: Seq<char>)
    requires
        kw.len() > 0,
    ensures
        split_top(s, kw).len() >= 2 ==> forall|i: int|
            0 <= i < split_top(s, kw).len() ==> (#[trigger] split_top(s, kw)[i]).len() < s.len(),
{
    law_split_rejoins(s, kw);
    if split_top(s, kw).len() >= 2 {
        lemma_join_pieces_shorter(split_top(s, kw), kw);
    }
}

/// Whether a disjunct of `predicate`, split at top-level `or`, normalizes to `true`.
pub open spec fn true_disjunct(predicate: Seq<char>) -> bool {
    let clauses = split_top(strip_parens(predicate), "or"@);
    exists|i: int| 0 <= i < clauses.len() && normalized_clause(#[trigger] clauses[i]) == "true"@
}

/// Whether a top-level `or` disjunct of `predicate` is the constant `true`.
pub fn has_true_disjunct(predicate: &str) -> (r: bool)
    ensures
        r == true_disjunct(predicate@),
{
    proof {
        reveal_strlit("or");
        reveal_strlit("true");
    }
    let stripped = strip_balanced_outer_parens(predicate);
    let clauses = split_top_level_keyword(stripped.as_str(), "or");
    let ghost cs = split_top(strip_parens(predicate@), "or"@);
    let mut i: usize = 0;
    while i < clauses.len()
        invariant
            0 <= i <= clauses@.len(),
            clauses.deep_view() == cs,
            forall|k: int| 0 <= k < i ==> normalized_clause(#[trigger] cs[k]) != "true"@,
        decreases clauses.len() - i,
    {
        assert(clauses@[i as int]@ == cs[i as int]);
        let n = normalized_predicate_clause(clauses[i].as_str());
        if str_eq(n.as_str(), "true") {
            return true;
        }
        i += 1;
    }
    false
}

/// The clauses of `s` split at top-level `kw`, each split again the same way while
/// that gives more than one clause.
pub open spec fn flattened(s: Seq<char>, kw: Seq<char>) -> Seq<Seq<char>>
    decreases s.len() + 1, 0nat,
{
    let clauses = split_top(strip_parens(s), kw);
    if clauses.len() <= 1 {
        clauses
    } else {
        flat_upto(clauses, kw, s.len(), clauses.len() as int)
    }
}

/// The flattened clauses of `cs[0..i]`, one after another; `n` bounds their lengths.
pub open spec fn flat_upto(cs: Seq<Seq<char>>, kw: Seq<char>, n: nat, i: int) -> Seq<Seq<char>>
    decreases n, i,
{
    if i <= 0 || i > cs.len() {
        Seq::empty()
    } else {
        let rest = flat_upto(cs, kw, n, i - 1);
        if cs[i - 1].len() < n {
            rest + flattened(cs[i - 1], kw)
        } else {
            rest.push(cs[i - 1])
        }
    }
}

/// The clauses of `predicate` at top-level `keyword`, each split further at nested
/// top-level occurrences of the keyword.
pub fn flattened_repair_keyword_clauses(predicate: &str, keyword: &str) -> (r: Vec<String>)
    requires
        keyword@.len() > 0,
    ensures
        r.deep_view() == flattened(predicate@, keyword@),
    decreases predicate@.len(),
{
    let stripped = strip_balanced_outer_parens(predicate);
    let clauses = split_top_level_keyword(stripped.as_str(), keyword);
    if clauses.len() <= 1 {
        return clauses;
    }
    let ghost cs = clauses.deep_view();
    proof {
        lemma_strip_parens_len(predicate@);
        lemma_split_pieces_shorter(stripped@, keyword@);
    }
    let mut out: Vec<String> = Vec::new();
    let mut i: usize = 0;
    assert(out.deep_view() =~= flat_upto(cs, keyword@, predicate@.len(), 0));
    while i < clauses.len()
        invariant
            0 <= i <= clauses@.len(),
            cs == clauses.deep_view(),
            cs.len() >= 2,
            keyword@.len() > 0,
            forall|k: int| 0 <= k < cs.len() ==> (#[trigger] cs[k]).len() < predicate@.len(),
            out.deep_view() == flat_upto(cs, keyword@, predicate@.len(), i as int),
        decreases clauses.len() - i,
    {
        assert(clauses@[i as int]@ == cs[i as int]);
        let mut inner = flattened_repair_keyword_clauses(clauses[i].as_str(), keyword);
        let ghost before = out.deep_view();
        let ghost added = inner.deep_view();
        out.append(&mut inner);
        assert(out.deep_view() =~= before + added);
        i += 1;
    }
    out
}

/// The conjuncts of a negated conjunction: what follows a leading `not` (after
/// trimming), flattened at top-level `and`.
pub open spec fn negated_and_view(predicate: Seq<char>) -> Option<Seq<Seq<char>>> {
    match not_operand(trim(predicate)) {
        Some(n) => Some(flattened(n, "and"@)),
        None => None,
    }
}

/// The conjuncts of a negated conjunction, when `predicate` starts with `not`.
pub fn negated_and_clauses(predicate: &str) -> (r: Option<Vec<String>>)
    ensures
        match r {
            Some(cs) => negated_and_view(predicate@) == Some(cs.deep_view()),
            None => negated_and_view(predicate@) is None,
        },
{
    proof {
        reveal_strlit("and");
    }
    let t = trimmed(predicate);
    match stripped_not_operand(t.as_str()) {
        Some(negated) => Some(flattened_repair_keyword_clauses(negated.as_str(), "and")),
        None => None,
    }
}

/// What reading one character does while compacting: whether the character is kept,
/// and whether afterwards the text is inside a string literal, just after a backslash
/// there.
pub open spec fn compact_step(ch: char, in_string: bool, escaped: bool) -> (bool, bool, bool) {
    if in_string {
        if escaped {
            (true, true, false)
        } else if ch == '\\' {
            (true, true, true)
        } else if ch == '"' {
            (true, false, false)
        } else {
            (true, true, false)
        }
    } else if ch == '"' {
        (true, true, false)
    } else if is_white(ch) {
        (false, false, false)
    } else {
        (true, false, false)
    }
}

/// `s` without the white space outside string literals, read from the given state.
pub open spec fn compact_from(s: Seq<char>, in_string: bool, escaped: bool) -> Seq<char>
    decreases s.len(),
{
    if s.len() == 0 {
        Seq::empty()
    } else {
        let (keep, i2, e2) = compact_step(s[0], in_string, escaped);
        let rest = compact_from(s.drop_first(), i2, e2);
        if keep { seq![s[0]] + rest } else { rest }
    }
}

/// `s` without the white space outside its string literals.
pub open spec fn compact(s: Seq<char>) -> Seq<char> {
    compact_from(s, false, false)
}

proof fn lemma_compact_unfold(v: Seq<char>, i: int, in_string: bool, escaped: bool)
    requires
        0 <= i < v.len(),
    ensures
        compact_from(v.skip(i), in_string, escaped) == ({
            let (keep, i2, e2) = compact_step(v[i], in_string, escaped);
            let rest = compact_from(v.skip(i + 1), i2, e2);
            if keep { seq![v[i]] + rest } else { rest }
        }),
{
    assert(v.skip(i).drop_first() =~= v.skip(i + 1));
}

/// `predicate` without the white space outside its string literals.
pub fn compact_predicate_text(predicate: &str) -> (r: String)
    ensures
        r@ == compact(predicate@),
{
    let v = chars_of(predicate);
    let mut out = String::new();
    let mut in_string = false;
    let mut escaped = false;
    let mut i: usize = 0;
    assert(v@.skip(0) =~= v@);
    while i < v.len()
        invariant
            0 <= i <= v@.len(),
            v@ == predicate@,
            out@ + compact_from(v@.skip(i as int), in_string, escaped) == compact(predicate@),
        decreases v.len() - i,
    {
        let ch = v[i];
        proof { lemma_compact_unfold(v@, i as int, in_string, escaped); }
        let keep;
        if in_string {
            keep = true;
            if escaped {
                escaped = false;
            } else if ch == '\\' {
                escaped = true;
            } else if ch == '"' {
                in_string = false;
            }
        } else if ch == '"' {
            keep = true;
            in_string = true;
            escaped = false;
        } else {
            keep = !is_whitespace(ch);
            escaped = false;
        }
        let ghost before = out@;
        if keep {
            push_char(&mut out, ch);
            assert(before + (seq![ch] + compact_from(v@.skip(i + 1), in_string, escaped)) =~= out@ + compact_from(v@.skip(i + 1), in_string, escaped));
        }
        i += 1;
    }
    assert(v@.skip(v@.len() as int) =~= Seq::<char>::empty());
    assert(out@ =~= out@ + Seq::<char>::empty());
    out
}

proof fn lemma_compact_from_idempotent(s: Seq<char>, in_string: bool, escaped: bool)
    requires
        !in_string ==> !escaped,
    ensures
        compact_from(compact_from(s, in_string, escaped), in_string, escaped) == compact_from(s, in_string, escaped),
    decreases s.len(),
{
    if s.len() > 0 {
        let (keep, i2, e2) = compact_step(s[0], in_string, escaped);
        let rest = compact_from(s.drop_first(), i2, e2);
        lemma_compact_from_idempotent(s.drop_first(), i2, e2);
        if keep {
            let c = seq![s[0]] + rest;
            assert(c[0] == s[0]);
            assert(c.drop_first() =~= rest);
        }
    }
}

/// Compacting text a second time changes nothing.
pub proof fn law_compact_idempotent(s: Seq<char>)
    ensures
        compact(compact(s)) == compact(s),
{
    lemma_compact_from_idempotent(s, false, false);
}

/// The position just after the string literal whose text starts at `j` (after its
/// opening quote), or the end of `s` when it does not close.
pub open spec fn string_end(s: Seq<char>, j: int, escaped: bool) -> int
    decreases s.len() - j,
{
    if j < 0 || j >= s.len() {
        s.len() as int
    } else if escaped {
        string_end(s, j + 1, false)
    } else if s[j] == '\\' {
        string_end(s, j + 1, true)
    } else if s[j] == '"' {
        j + 1
    } else {
        string_end(s, j + 1, false)
    }
}

pub proof fn lemma_string_end(s: Seq<char>, j: int, escaped: bool)
    requires
        0 <= j,
    ensures
        j <= string_end(s, j, escaped) <= s.len() || (j > s.len() && string_end(s, j, escaped) == s.len()),
    decreases s.len() - j,
{
    if j < s.len() {
        if escaped || s[j] != '"' {
            lemma_string_end(s, j + 1, !escaped && s[j] == '\\');
        }
    }
}

/// The end of the run of identifier characters starting at `j`.
pub open spec fn ident_end(s: Seq<char>, j: int) -> int
    decreases s.len() - j,
{
    if 0 <= j < s.len() && is_ident_char(s[j]) { ident_end(s, j + 1) } else { j }
}

pub proof fn lemma_ident_end(s: Seq<char>, j: int)
    requires
        0 <= j <= s.len(),
    ensures
        j <= ident_end(s, j) <= s.len(),
        forall|k: int| j <= k < ident_end(s, j) ==> is_ident_char(#[trigger] s[k]),
    decreases s.len() - j,
{
    if j < s.len() && is_ident_char(s[j]) {
        lemma_ident_end(s, j + 1);
    }
}

/// Whether the identifier at `s[start..end]` names a value: it is not reached through
/// `.` or `::`, and no `::` follows it.
pub open spec fn value_position(s: Seq<char>, start: int, end: int) -> bool {
    &&& !(start >= 1 && s[start - 1] == '.')
    &&& !(start >= 2 && s[start - 2] == ':' && s[start - 1] == ':')
    &&& !(end + 2 <= s.len() && s[end] == ':' && s[end + 1] == ':')
}

/// Whether the identifier at character positions `start..end` of `predicate` names a
/// value rather than a field, a path segment or a module.
pub fn is_value_identifier_position(predicate: &str, start: usize, end: usize) -> (r: bool)
    requires
        start <= end <= predicate@.len(),
    ensures
        r == value_position(predicate@, start as int, end as int),
{
    let v = chars_of(predicate);
    value_position_at(&v, start, end)
}

pub(crate) fn value_position_at(v: &Vec<char>, start: usize, end: usize) -> (r: bool)
    requires
        start <= end <= v@.len(),
    ensures
        r == value_position(v@, start as int, end as int),
{
    let dot = start >= 1 && v[start - 1] == '.';
    let path_before = start >= 2 && v[start - 2] == ':' && v[start - 1] == ':';
    let path_after = v.len() >= 2 && end <= v.len() - 2 && v[end] == ':' && v[end + 1] == ':';
    !dot && !path_before && !path_after
}

pub(crate) fn skip_string(v: &Vec<char>, j: usize) -> (r: usize)
    requires
        j <= v@.len(),
    ensures
        r == string_end(v@, j as int, false),
        j <= r <= v@.len(),
{
    let mut k = j;
    let mut escaped = false;
    proof { lemma_string_end(v@, j as int, false); }
    while k < v.len()
        invariant
            j <= k <= v@.len(),
            string_end(v@, j as int, false) == string_end(v@, k as int, escaped),
        decreases v.len() - k,
    {
        if escaped {
            escaped = false;
        } else if v[k] == '\\' {
            escaped = true;
        } else if v[k] == '"' {
            return k + 1;
        }
        k += 1;
    }
    k
}

pub(crate) fn ident_run_end(v: &Vec<char>, j: usize) -> (r: usize)
    requires
        j <= v@.len(),
    ensures
        r == ident_end(v@, j as int),
        j <= r <= v@.len(),
{
    proof { lemma_ident_end(v@, j as int); }
    let mut k = j;
    while k < v.len() && is_ident_continue(v[k])
        invariant
            j <= k <= v@.len(),
            ident_end(v@, j as int) == ident_end(v@, k as int),
        decreases v.len() - k,
    {
        k += 1;
    }
    k
}

/// The identifiers in value positions of `s`, from position `i` on, added to `acc` in
/// order of first appearance; string literals are skipped.
pub open spec fn ids_scan(s: Seq<char>, i: int, acc: Seq<Seq<char>>) -> Seq<Seq<char>>
    decreases s.len() - i,
{
    if i < 0 || i >= s.len() {
        acc
    } else if s[i] == '"' {
        proof { lemma_string_end(s, i + 1, false); }
        ids_scan(s, string_end(s, i + 1, false), acc)
    } else if ident_start(s[i]) {
        proof { lemma_ident_end(s, i + 1); }
        let e = ident_end(s, i + 1);
        let id = s.subrange(i, e);
        ids_scan(s, e, if value_position(s, i, e) && !acc.contains(id) { acc.push(id) } else { acc })
    } else {
        ids_scan(s, i + 1, acc)
    }
}

/// The distinct identifiers in value positions of `s`, in order of first appearance.
pub open spec fn identifiers(s: Seq<char>) -> Seq<Seq<char>> {
    ids_scan(s, 0, Seq::empty())
}

/// The distinct identifiers that `expression` names as values, in order of first
/// appearance, outside string literals.
pub fn expression_identifiers(expression: &str) -> (r: Vec<String>)
    ensures
        r.deep_view() == identifiers(expression@),
{
    let v = chars_of(expression);
    let mut out: Vec<String> = Vec::new();
    let mut i: usize = 0;
    assert(out.deep_view() =~= Seq::<Seq<char>>::empty());
    while i < v.len()
        invariant
            0 <= i <= v@.len(),
            v@ == expression@,
            identifiers(expression@) == ids_scan(v@, i as int, out.deep_view()),
        decreases v.len() - i,
    {
        let ch = v[i];
        if ch == '"' {
            i = skip_string(&v, i + 1);
        } else if is_ident_start(ch) {
            let e = ident_run_end(&v, i + 1);
            let id = string_from(&v, i, e);
            if value_position_at(&v, i, e) && !contains_str(&out, id.as_str()) {
                let ghost before = out.deep_view();
                out.push(id);
                assert(out.deep_view() =~= before.push(v@.subrange(i as int, e as int)));
            }
            i = e;
        } else {
            i += 1;
        }
    }
    out
}

/// Whether `expression` names `name` as a value.
pub fn expression_references_identifier(expression: &str, name: &str) -> (r: bool)
    ensures
        r == identifiers(expression@).contains(name@),
{
    let ids = expression_identifiers(expression);
    contains_str(&ids, name)
}

proof fn lemma_ids_scan_distinct(s: Seq<char>, i: int, acc: Seq<Seq<char>>)
    requires
        acc.no_duplicates(),
    ensures
        ids_scan(s, i, acc).no_duplicates(),
    decreases s.len() - i,
{
    if 0 <= i < s.len() {
        if s[i] == '"' {
            lemma_string_end(s, i + 1, false);
            lemma_ids_scan_distinct(s, string_end(s, i + 1, false), acc);
        } else if ident_start(s[i]) {
            lemma_ident_end(s, i + 1);
            let e = ident_end(s, i + 1);
            let id = s.subrange(i, e);
            if value_position(s, i, e) && !acc.contains(id) {
                let acc2 = acc.push(id);
                assert forall|a: int, b: int| 0 <= a < b < acc2.len() implies acc2[a] != acc2[b] by {
                    if b == acc2.len() - 1 {
                        assert(acc2[a] == acc[a]);
                    }
                }
                lemma_ids_scan_distinct(s, e, acc2);
            } else {
                lemma_ids_scan_distinct(s, e, acc);
            }
        } else {
            lemma_ids_scan_distinct(s, i + 1, acc);
        }
    }
}

/// The identifiers of an expression are listed once each.
pub proof fn law_identifiers_distinct(s: Seq<char>)
    ensures
        identifiers(s).no_duplicates(),
{
    lemma_ids_scan_distinct(s, 0, Seq::empty());
}

/// `s` from position `i` on with every value-position identifier equal to `target`
/// replaced by `replacement`; string literals are copied unchanged.
pub open spec fn replace_scan(s: Seq<char>, i: int, target: Seq<char>, replacement: Seq<char>) -> Seq<char>
    decreases s.len() - i,
{
    if i < 0 || i >= s.len() {
        Seq::empty()
    } else if s[i] == '"' {
        proof { lemma_string_end(s, i + 1, false); }
        let e = string_end(s, i + 1, false);
        s.subrange(i, e) + replace_scan(s, e, target, replacement)
    } else if ident_start(s[i]) {
        proof { lemma_ident_end(s, i + 1); }
        let e = ident_end(s, i + 1);
        let id = s.subrange(i, e);
        (if id == target && value_position(s, i, e) { replacement } else { id }) + replace_scan(s, e, target, replacement)
    } else {
        seq![s[i]] + replace_scan(s, i + 1, target, replacement)
    }
}

/// `predicate` with every identifier `target` in a value position replaced by
/// `replacement`.
pub open spec fn replaced(predicate: Seq<char>, target: Seq<char>, replacement: Seq<char>) -> Seq<char> {
    replace_scan(predicate, 0, target, replacement)
}

fn push_all(out: &mut String, v: &Vec<char>, start: usize, end: usize)
    requires
        start <= end <= v@.len(),
    ensures
        final(out)@ == old(out)@ + v@.subrange(start as int, end as int),
{
    let mut k = start;
    while k < end
        invariant
            start <= k <= end <= v@.len(),
            out@ == old(out)@ + v@.subrange(start as int, k as int),
        decreases end - k,
    {
        push_char(out, v[k]);
        assert(old(out)@ + v@.subrange(start as int, k + 1) =~= old(out)@ + v@.subrange(start as int, k as int) + seq![v@[k as int]]);
        k += 1;
    }
}

/// `predicate` with every identifier `target` in a value position replaced by
/// `replacement`; string literals are left as they are.
pub fn replace_identifier(predicate: &str, target: &str, replacement: &str) -> (r: String)
    ensures
        r@ == replaced(predicate@, target@, replacement@),
{
    let v = chars_of(predicate);
    let rv = chars_of(replacement);
    let mut out = String::new();
    let mut i: usize = 0;
    while i < v.len()
        invariant
            0 <= i <= v@.len(),
            v@ == predicate@,
            rv@ == replacement@,
            out@ + replace_scan(v@, i as int, target@, replacement@) == replaced(predicate@, target@, replacement@),
        decreases v.len() - i,
    {
        let ch = v[i];
        let ghost before = out@;
        if ch == '"' {
            let e = skip_string(&v, i + 1);
            push_all(&mut out, &v, i, e);
            assert(before + (v@.subrange(i as int, e as int) + replace_scan(v@, e as int, target@, replacement@)) =~= out@ + replace_scan(v@, e as int, target@, replacement@));
            i = e;
        } else if is_ident_start(ch) {
            let e = ident_run_end(&v, i + 1);
            let id = string_from(&v, i, e);
            let ghost piece = if id@ == target@ && value_position(v@, i as int, e as int) { replacement@ } else { id@ };
            if str_eq(id.as_str(), target) && value_position_at(&v, i, e) {
                push_all(&mut out, &rv, 0, rv.len());
                assert(rv@.subrange(0, rv@.len() as int) =~= rv@);
            } else {
                push_all(&mut out, &v, i, e);
            }
            assert(before + (piece + replace_scan(v@, e as int, target@, replacement@)) =~= out@ + replace_scan(v@, e as int, target@, replacement@));
            i = e;
        } else {
            push_char(&mut out, ch);
            assert(before + (seq![ch] + replace_scan(v@, i + 1, target@, replacement@)) =~= out@ + replace_scan(v@, i + 1, target@, replacement@));
            i += 1;
        }
    }
    assert(out@ =~= out@ + Seq::<char>::empty());
    out
}

proof fn lemma_replace_self(s: Seq<char>, i: int, target: Seq<char>)
    requires
        0 <= i <= s.len(),
    ensures
        replace_scan(s, i, target, target) == s.skip(i),
    decreases s.len() - i,
{
    if i < s.len() {
        if s[i] == '"' {
            lemma_string_end(s, i + 1, false);
            let e = string_end(s, i + 1, false);
            lemma_replace_self(s, e, target);
            assert(s.subrange(i, e) + s.skip(e) =~= s.skip(i));
        } else if ident_start(s[i]) {
            lemma_ident_end(s, i + 1);
            let e = ident_end(s, i + 1);
            lemma_replace_self(s, e, target);
            assert(s.subrange(i, e) + s.skip(e) =~= s.skip(i));
        } else {
            lemma_replace_self(s, i + 1, target);
            assert(seq![s[i]] + s.skip(i + 1) =~= s.skip(i));
        }
    } else {
        assert(s.skip(i) =~= Seq::<char>::empty());
    }
}

/// Replacing an identifier by itself gives back the text unchanged.
pub proof fn law_replace_identity(s: Seq<char>, target: Seq<char>)
    ensures
        replaced(s, target, target) == s,
{
    lemma_replace_self(s, 0, target);
    assert(s.skip(0) =~= s);
}

/// Whether `a` comes before `b` in the order of their characters, a proper prefix
/// first. For Rust strings this is the order of `<`, since UTF-8 keeps the order of
/// the code points.
pub open spec fn lex_less(a: Seq<char>, b: Seq<char>) -> bool
    decreases a.len(),
{
    if a.len() == 0 {
        b.len() > 0
    } else if b.len() == 0 {
        false
    } else if a[0] != b[0] {
        (a[0] as u32) < (b[0] as u32)
    } else {
        lex_less(a.drop_first(), b.drop_first())
    }
}

/// Whether `a` comes before `b` in the order of their characters.
pub fn text_less(a: &str, b: &str) -> (r: bool)
    ensures
        r == lex_less(a@, b@),
{
    let va = chars_of(a);
    let vb = chars_of(b);
    let mut i: usize = 0;
    assert(va@.skip(0) =~= va@);
    assert(vb@.skip(0) =~= vb@);
    while i < va.len() && i < vb.len() && va[i] == vb[i]
        invariant
            0 <= i <= va@.len(),
            i <= vb@.len(),
            lex_less(a@, b@) == lex_less(va@.skip(i as int), vb@.skip(i as int)),
            va@ == a@,
            vb@ == b@,
        decreases va.len() - i,
    {
        assert(va@.skip(i as int).drop_first() =~= va@.skip(i + 1));
        assert(vb@.skip(i as int).drop_first() =~= vb@.skip(i + 1));
        i += 1;
    }
    if i == va.len() {
        return i < vb.len();
    }
    if i == vb.len() {
        return false;
    }
    (va[i] as u32) < (vb[i] as u32)
}

/// The split of `clause` at the first of `ops[i..]` that occurs in it: the operator,
/// and the untrimmed text before and after its first occurrence.
pub open spec fn op_split_from(clause: Seq<char>, ops: Seq<Seq<char>>, i: int) -> Option<(int, Seq<char>, Seq<char>)>
    decreases ops.len() - i,
{
    if i < 0 || i >= ops.len() {
        None
    } else {
        match split_once_view(clause, ops[i]) {
            Some((l, r)) => Some((i, l, r)),
            None => op_split_from(clause, ops, i + 1),
        }
    }
}

pub proof fn lemma_op_split(clause: Seq<char>, ops: Seq<Seq<char>>, i: int)
    ensures
        op_split_from(clause, ops, i) matches Some((k, l, r)) ==> (0 <= k < ops.len() && i <= k && clause == l + ops[k] + r),
    decreases ops.len() - i,
{
    if 0 <= i < ops.len() {
        match split_once_view(clause, ops[i]) {
            Some((l, r)) => {
                crate::predicate_text::lemma_find_from(clause, ops[i], 0);
                let k = crate::predicate_text::find_from(clause, ops[i], 0)->0;
                assert(clause =~= clause.subrange(0, k) + ops[i] + clause.subrange(k + ops[i].len(), clause.len() as int));
            },
            None => lemma_op_split(clause, ops, i + 1),
        }
    }
}

/// The comparison operators in the order a clause is tried against them.
pub open spec fn ordered_ops() -> Seq<Seq<char>> {
    seq!["=="@, "!="@, "<="@, ">="@, "<"@, ">"@]
}

/// The operators a negated comparison is tried against, in order.
pub open spec fn negation_ops() -> Seq<Seq<char>> {
    seq!["=="@, "!="@, "<="@, "<"@, ">="@, ">"@]
}

/// The operator that negates `negation_ops()[k]`.
pub open spec fn inverse_op(k: int) -> Seq<char> {
    seq!["!="@, "=="@, ">"@, ">="@, "<"@, "<="@][k]
}

/// `left`, `op` and `right`, separated by single spaces.
pub open spec fn spaced(left: Seq<char>, op: Seq<char>, right: Seq<char>) -> Seq<char> {
    left + seq![' '] + op + seq![' '] + right
}

fn push_text(out: &mut String, s: &str)
    ensures
        final(out)@ == old(out)@ + s@,
{
    let v = chars_of(s);
    push_all(out, &v, 0, v.len());
    assert(v@.subrange(0, v@.len() as int) =~= v@);
}

/// `left`, `op` and `right`, separated by single spaces.
fn spaced_text(left: &str, op: &str, right: &str) -> (r: String)
    ensures
        r@ == spaced(left@, op@, right@),
{
    let mut out = String::new();
    push_text(&mut out, left);
    push_char(&mut out, ' ');
    push_text(&mut out, op);
    push_char(&mut out, ' ');
    push_text(&mut out, right);
    assert(out@ =~= spaced(left@, op@, right@));
    out
}

/// A comparison clause in canonical form: without wrapping parentheses, a negation
/// resolved, `>` and `>=` turned into `<` and `<=`, and the operands of `==` and `!=`
/// in order.
pub open spec fn canonical(c: Seq<char>) -> Seq<char>
    decreases c.len(), 1nat,
{
    let t = strip_parens(c);
    proof { lemma_strip_parens_len(c); }
    match canonical_negated(t) {
        Some(n) => n,
        None => match op_split_from(t, ordered_ops(), 0) {
            Some((k, l, r)) => {
                let left = trim(l);
                let right = trim(r);
                let op = ordered_ops()[k];
                if left.len() == 0 || right.len() == 0 {
                    t
                } else if (k == 0 || k == 1) && lex_less(right, left) {
                    spaced(right, op, left)
                } else if k == 5 {
                    spaced(right, "<"@, left)
                } else if k == 3 {
                    spaced(right, "<="@, left)
                } else {
                    spaced(left, op, right)
                }
            },
            None => t,
        },
    }
}

/// The canonical form of a negated clause, when `c` is `not` applied to a constant, to
/// a negation or to a comparison.
pub open spec fn canonical_negated(c: Seq<char>) -> Option<Seq<char>>
    decreases c.len(), 0nat,
{
    let t = trim(c);
    match not_operand(t) {
        None => None,
        Some(n0) => {
            let n = strip_parens(n0);
            proof {
                lemma_trim_len(c);
                lemma_not_operand_shorter(t);
                lemma_strip_parens_len(n0);
            }
            match not_operand(n) {
                Some(dn) => {
                    proof { lemma_not_operand_shorter(n); }
                    Some(canonical(dn))
                },
                None => if normalized_clause(n) == "true"@ {
                    Some("false"@)
                } else if normalized_clause(n) == "false"@ {
                    Some("true"@)
                } else {
                    match op_split_from(n, negation_ops(), 0) {
                        Some((k, l, r)) => if trim(l).len() == 0 || trim(r).len() == 0 {
                            None
                        } else {
                            proof {
                                lemma_op_split(n, negation_ops(), 0);
                                lemma_trim_len(l);
                                lemma_trim_len(r);
                                lemma_inverse_len(k);
                            }
                            Some(canonical(spaced(trim(l), inverse_op(k), trim(r))))
                        },
                        None => None,
                    }
                },
            }
        },
    }
}

/// A negated operator is at most one character longer than the operator.
pub proof fn lemma_inverse_len(k: int)
    requires
        0 <= k < 6,
    ensures
        inverse_op(k).len() <= negation_ops()[k].len() + 1,
{
    reveal_strlit("==");
    reveal_strlit("!=");
    reveal_strlit("<=");
    reveal_strlit(">=");
    reveal_strlit("<");
    reveal_strlit(">");
}

/// An operand of a leading `not` is at least four characters shorter than the text.
pub proof fn lemma_not_operand_shorter(p: Seq<char>)
    ensures
        not_operand(p) matches Some(o) ==> o.len() + 4 <= p.len(),
{
    reveal_strlit("not ");
    reveal_strlit("not(");
    if has_prefix(p, "not "@) {
    } else if has_prefix(p, "not("@) {
        let rest = p.skip(4);
        let body = if rest.len() > 0 && rest.last() == ')' { rest.drop_last() } else { rest };
        lemma_trim_len(body);
    }
}

/// The first of `ops` that occurs in `clause`, with the text around it.
fn split_at_first(clause: &str, ops: &[&'static str; 6], Ghost(spec_ops): Ghost<Seq<Seq<char>>>) -> (r: Option<(usize, String, String)>)
    requires
        spec_ops.len() == 6,
        forall|k: int| 0 <= k < 6 ==> (#[trigger] ops@[k])@ == spec_ops[k],
    ensures
        match r {
            Some((k, l, rt)) => op_split_from(clause@, spec_ops, 0) == Some((k as int, l@, rt@)) && k < 6,
            None => op_split_from(clause@, spec_ops, 0) is None,
        },
{
    let mut i: usize = 0;
    while i < 6
        invariant
            0 <= i <= 6,
            spec_ops.len() == 6,
            forall|k: int| 0 <= k < 6 ==> (#[trigger] ops@[k])@ == spec_ops[k],
            op_split_from(clause@, spec_ops, 0) == op_split_from(clause@, spec_ops, i as int),
        decreases 6 - i,
    {
        match split_once(clause, ops[i]) {
            Some((l, r)) => return Some((i, l, r)),
            None => {},
        }
        i += 1;
    }
    None
}

/// `clause` in canonical form.
pub fn canonical_repair_clause(clause: &str) -> (r: String)
    ensures
        r@ == canonical(clause@),
    decreases clause@.len(), 1nat,
{
    let t = strip_balanced_outer_parens(clause);
    proof { lemma_strip_parens_len(clause@); }
    match canonical_negated_repair_clause(t.as_str()) {
        Some(n) => return n,
        None => {},
    }
    let ops: [&'static str; 6] = ["==", "!=", "<=", ">=", "<", ">"];
    proof {
        reveal_strlit("==");
        reveal_strlit("!=");
        reveal_strlit("<=");
        reveal_strlit(">=");
        reveal_strlit("<");
        reveal_strlit(">");
        assert forall|k: int| 0 <= k < 6 implies (#[trigger] ops@[k])@ == ordered_ops()[k] by {}
    }
    match split_at_first(t.as_str(), &ops, Ghost(ordered_ops())) {
        Some((k, l, r)) => {
            let left = trimmed(l.as_str());
            let right = trimmed(r.as_str());
            if left.unicode_len() == 0 || right.unicode_len() == 0 {
                t
            } else if (k == 0 || k == 1) && text_less(right.as_str(), left.as_str()) {
                spaced_text(right.as_str(), ops[k], left.as_str())
            } else if k == 5 {
                spaced_text(right.as_str(), "<", left.as_str())
            } else if k == 3 {
                spaced_text(right.as_str(), "<=", left.as_str())
            } else {
                spaced_text(left.as_str(), ops[k], right.as_str())
            }
        },
        None => t,
    }
}

/// The canonical form of a negated clause: `not` of a constant flips it, a double
/// negation cancels, and a negated comparison takes the opposite operator.
pub fn canonical_negated_repair_clause(clause: &str) -> (r: Option<String>)
    ensures
        match r {
            Some(n) => canonical_negated(clause@) == Some(n@),
            None => canonical_negated(clause@) is None,
        },
    decreases clause@.len(), 0nat,
{
    let t = trimmed(clause);
    let n0 = match stripped_not_operand(t.as_str()) {
        Some(n0) => n0,
        None => return None,
    };
    proof {
        lemma_trim_len(clause@);
        lemma_not_operand_shorter(t@);
        lemma_strip_parens_len(n0@);
    }
    let n = strip_balanced_outer_parens(n0.as_str());
    match stripped_not_operand(n.as_str()) {
        Some(dn) => {
            proof { lemma_not_operand_shorter(n@); }
            return Some(canonical_repair_clause(dn.as_str()));
        },
        None => {},
    }
    let normalized = normalized_predicate_clause(n.as_str());
    if str_eq(normalized.as_str(), "true") {
        return Some(string_of("false"));
    }
    if str_eq(normalized.as_str(), "false") {
        return Some(string_of("true"));
    }
    let ops: [&'static str; 6] = ["==", "!=", "<=", "<", ">=", ">"];
    let inverses: [&'static str; 6] = ["!=", "==", ">", ">=", "<", "<="];
    proof {
        reveal_strlit("==");
        reveal_strlit("!=");
        reveal_strlit("<=");
        reveal_strlit(">=");
        reveal_strlit("<");
        reveal_strlit(">");
        assert forall|k: int| 0 <= k < 6 implies (#[trigger] ops@[k])@ == negation_ops()[k] by {}
        assert forall|k: int| 0 <= k < 6 implies (#[trigger] inverses@[k])@ == inverse_op(k) by {}
    }
    match split_at_first(n.as_str(), &ops, Ghost(negation_ops())) {
        Some((k, l, r)) => {
            let left = trimmed(l.as_str());
            let right = trimmed(r.as_str());
            if left.unicode_len() == 0 || right.unicode_len() == 0 {
                return None;
            }
            proof {
                lemma_op_split(n@, negation_ops(), 0);
                lemma_trim_len(l@);
                lemma_trim_len(r@);
                lemma_inverse_len(k as int);
            }
            let inverted = spaced_text(left.as_str(), inverses[k], right.as_str());
            Some(canonical_repair_clause(inverted.as_str()))
        },
        None => None,
    }
}

/// The canonical negation of `c`; failing that, for the negation of a plain atom (no
/// top-level `and` or `or`, no comparison), `not` followed by the atom.
pub open spec fn negated_or_atom(c: Seq<char>) -> Option<Seq<char>> {
    match canonical_negated(c) {
        Some(n) => Some(n),
        None => match not_operand(trim(c)) {
            None => None,
            Some(n0) => {
                let n = strip_parens(n0);
                if n.len() == 0 || split_top(n, "and"@).len() > 1 || split_top(n, "or"@).len() > 1
                    || parse_comparison_from(n, 0) is Some {
                    None
                } else {
                    Some("not "@ + n)
                }
            },
        },
    }
}

/// The canonical negation of `clause`, or `not` followed by a negated plain atom.
pub fn canonical_negated_repair_or_atom_clause(clause: &str) -> (r: Option<String>)
    ensures
        match r {
            Some(n) => negated_or_atom(clause@) == Some(n@),
            None => negated_or_atom(clause@) is None,
        },
{
    match canonical_negated_repair_clause(clause) {
        Some(n) => return Some(n),
        None => {},
    }
    proof {
        reveal_strlit("and");
        reveal_strlit("or");
        reveal_strlit("not ");
    }
    let t = trimmed(clause);
    let n0 = match stripped_not_operand(t.as_str()) {
        Some(n0) => n0,
        None => return None,
    };
    let n = strip_balanced_outer_parens(n0.as_str());
    if n.unicode_len() == 0 || split_top_level_keyword(n.as_str(), "and").len() > 1
        || split_top_level_keyword(n.as_str(), "or").len() > 1 || ParsedRepairComparison::parse(n.as_str()).is_some() {
        return None;
    }
    let mut out = string_of("not ");
    push_text(&mut out, n.as_str());
    Some(out)
}

/// Each clause negated as `not (clause)`, when every one of them has a canonical
/// negation or is an atom.
pub open spec fn negate_each(cs: Seq<Seq<char>>) -> Option<Seq<Seq<char>>>
    decreases cs.len(),
{
    if cs.len() == 0 {
        Some(Seq::empty())
    } else {
        match (negate_each(cs.drop_last()), negated_or_atom("not ("@ + cs.last() + ")"@)) {
            (Some(init), Some(x)) => Some(init.push(x)),
            _ => None,
        }
    }
}

proof fn lemma_negate_each_prefix(cs: Seq<Seq<char>>, k: int)
    requires
        0 <= k <= cs.len(),
        negate_each(cs.take(k)) is None,
    ensures
        negate_each(cs) is None,
    decreases cs.len(),
{
    if k == cs.len() {
        assert(cs.take(k) =~= cs);
    } else {
        assert(cs.drop_last().take(k) =~= cs.take(k));
        lemma_negate_each_prefix(cs.drop_last(), k);
    }
}

/// `cs` without the clauses that are the constant `false`.
pub open spec fn without_false(cs: Seq<Seq<char>>) -> Seq<Seq<char>>
    decreases cs.len(),
{
    if cs.len() == 0 {
        Seq::empty()
    } else {
        let init = without_false(cs.drop_last());
        if cs.last() == "false"@ { init } else { init.push(cs.last()) }
    }
}

/// The disjuncts that a negated conjunction of two or more clauses stands for, by
/// De Morgan's law: `["true"]` when one of them is `true`, the others without `false`,
/// and `["false"]` when nothing is left.
pub open spec fn relevant_negated_and(predicate: Seq<char>) -> Option<Seq<Seq<char>>> {
    match negated_and_view(predicate) {
        None => None,
        Some(conj) => if conj.len() <= 1 {
            None
        } else {
            match negate_each(conj) {
                None => None,
                Some(cs) => if cs.contains("true"@) {
                    Some(seq!["true"@])
                } else if without_false(cs).len() == 0 {
                    Some(seq!["false"@])
                } else {
                    Some(without_false(cs))
                },
            }
        },
    }
}

/// The disjuncts a negated conjunction stands for, when `predicate` negates a
/// conjunction of two or more clauses that can each be negated.
pub fn repair_relevant_negated_and_clauses(predicate: &str) -> (r: Option<Vec<String>>)
    ensures
        match r {
            Some(cs) => relevant_negated_and(predicate@) == Some(cs.deep_view()),
            None => relevant_negated_and(predicate@) is None,
        },
{
    proof {
        reveal_strlit("true");
        reveal_strlit("false");
        reveal_strlit("not (");
        reveal_strlit(")");
    }
    let conjuncts = match negated_and_clauses(predicate) {
        Some(c) => c,
        None => return None,
    };
    if conjuncts.len() <= 1 {
        return None;
    }
    let ghost conj = conjuncts.deep_view();
    let mut negated: Vec<String> = Vec::new();
    let mut i: usize = 0;
    assert(conj.take(0) =~= Seq::<Seq<char>>::empty());
    assert(negated.deep_view() =~= Seq::<Seq<char>>::empty());
    while i < conjuncts.len()
        invariant
            0 <= i <= conjuncts@.len(),
            conj == conjuncts.deep_view(),
            negate_each(conj.take(i as int)) == Some(negated.deep_view()),
        decreases conjuncts.len() - i,
    {
        let mut wrapped = string_of("not (");
        push_text(&mut wrapped, conjuncts[i].as_str());
        push_char(&mut wrapped, ')');
        assert(conj.take(i + 1).drop_last() =~= conj.take(i as int));
        assert(conj.take(i + 1).last() == conj[i as int]);
        assert(wrapped@ =~= "not ("@ + conj[i as int] + ")"@);
        match canonical_negated_repair_or_atom_clause(wrapped.as_str()) {
            Some(x) => {
                let ghost before = negated.deep_view();
                let ghost xv = x@;
                negated.push(x);
                assert(negated.deep_view() =~= before.push(xv));
            },
            None => {
                proof { lemma_negate_each_prefix(conj, i + 1); }
                return None;
            },
        }
        i += 1;
    }
    assert(conj.take(conj.len() as int) =~= conj);
    let ghost cs = negated.deep_view();
    if contains_str(&negated, "true") {
        let mut only: Vec<String> = Vec::new();
        only.push(string_of("true"));
        assert(only.deep_view() =~= seq!["true"@]);
        return Some(only);
    }
    let mut kept: Vec<String> = Vec::new();
    let mut k: usize = 0;
    assert(cs.take(0) =~= Seq::<Seq<char>>::empty());
    assert(kept.deep_view() =~= Seq::<Seq<char>>::empty());
    while k < negated.len()
        invariant
            0 <= k <= negated@.len(),
            cs == negated.deep_view(),
            kept.deep_view() == without_false(cs.take(k as int)),
        decreases negated.len() - k,
    {
        assert(cs.take(k + 1).drop_last() =~= cs.take(k as int));
        assert(cs.take(k + 1).last() == cs[k as int]);
        assert(negated@[k as int]@ == cs[k as int]);
        if !str_eq(negated[k].as_str(), "false") {
            let ghost before = kept.deep_view();
            kept.push(negated[k].clone());
            assert(kept.deep_view() =~= before.push(cs[k as int]));
        }
        k += 1;
    }
    assert(cs.take(cs.len() as int) =~= cs);
    if kept.len() == 0 {
        let mut only: Vec<String> = Vec::new();
        only.push(string_of("false"));
        assert(only.deep_view() =~= seq!["false"@]);
        return Some(only);
    }
    Some(kept)
}

/// Whether `s` names `name` as a value.
pub open spec fn references(s: Seq<char>, name: Seq<char>) -> bool {
    identifiers(s).contains(name)
}

/// The total-order reading of a comparison that mentions the candidate: its compacted
/// operands, put in order, and the relation `==`, `<` or `>` states between them.
pub open spec fn total_order_view(d: Seq<char>, candidate: Seq<char>) -> Option<(Seq<char>, Seq<char>, TotalOrderRelation)> {
    let t = strip_parens(d);
    if !references(t, candidate) {
        None
    } else {
        match parse_comparison_from(t, 0) {
            None => None,
            Some((l, op, r)) => {
                let left = compact(l);
                let right = compact(r);
                let rel = if op == "=="@ {
                    Some(TotalOrderRelation::Equal)
                } else if op == "<"@ {
                    Some(TotalOrderRelation::Less)
                } else if op == ">"@ {
                    Some(TotalOrderRelation::Greater)
                } else {
                    None
                };
                if left == right {
                    None
                } else {
                    match rel {
                        None => None,
                        Some(rel) => if lex_less(right, left) {
                            Some((right, left, inverted(rel)))
                        } else {
                            Some((left, right, rel))
                        },
                    }
                }
            },
        }
    }
}

/// A comparison clause read as a relation in a total order between two operands.
pub struct TotalOrderCandidateClause {
    pub left: String,
    pub right: String,
    pub relation: TotalOrderRelation,
}

/// The total-order reading of `disjunct`, when it compares with `==`, `<` or `>` two
/// different operands and mentions the candidate.
pub fn total_order_candidate_clause(disjunct: &str, candidate: &str) -> (r: Option<TotalOrderCandidateClause>)
    ensures
        match r {
            Some(t) => total_order_view(disjunct@, candidate@) == Some((t.left@, t.right@, t.relation)),
            None => total_order_view(disjunct@, candidate@) is None,
        },
{
    proof {
        reveal_strlit("==");
        reveal_strlit("<");
        reveal_strlit(">");
    }
    let t = strip_balanced_outer_parens(disjunct);
    if !expression_references_identifier(t.as_str(), candidate) {
        return None;
    }
    let parsed = match ParsedRepairComparison::parse(t.as_str()) {
        Some(p) => p,
        None => return None,
    };
    let left = compact_predicate_text(parsed.left.as_str());
    let right = compact_predicate_text(parsed.right.as_str());
    if str_eq(left.as_str(), right.as_str()) {
        return None;
    }
    let relation = if str_eq(parsed.operator, "==") {
        TotalOrderRelation::Equal
    } else if str_eq(parsed.operator, "<") {
        TotalOrderRelation::Less
    } else if str_eq(parsed.operator, ">") {
        TotalOrderRelation::Greater
    } else {
        return None;
    };
    if text_less(right.as_str(), left.as_str()) {
        Some(TotalOrderCandidateClause { left: right, right: left, relation: relation.invert() })
    } else {
        Some(TotalOrderCandidateClause { left, right, relation })
    }
}

/// The bound a comparison with `<`, `<=`, `>` or `>=` that mentions the candidate
/// states: the smaller and the larger operand, compacted, and whether it is strict.
pub open spec fn order_bound_view(d: Seq<char>, candidate: Seq<char>) -> Option<(Seq<char>, Seq<char>, bool)> {
    let t = strip_parens(d);
    if !references(t, candidate) {
        None
    } else {
        match parse_comparison_from(t, 0) {
            None => None,
            Some((l, op, r)) => {
                let left = compact(l);
                let right = compact(r);
                if left == right {
                    None
                } else if op == ">"@ || op == ">="@ {
                    Some((right, left, op == ">"@))
                } else if op == "<"@ || op == "<="@ {
                    Some((left, right, op == "<"@))
                } else {
                    None
                }
            },
        }
    }
}

/// An order bound between two operands.
pub struct OrderBoundCandidateClause {
    pub left: String,
    pub right: String,
    pub strict: bool,
}

/// The bound `conjunct` states, when it is an order comparison of two different
/// operands that mentions the candidate.
pub fn order_bound_candidate_clause(conjunct: &str, candidate: &str) -> (r: Option<OrderBoundCandidateClause>)
    ensures
        match r {
            Some(b) => order_bound_view(conjunct@, candidate@) == Some((b.left@, b.right@, b.strict)),
            None => order_bound_view(conjunct@, candidate@) is None,
        },
{
    proof {
        reveal_strlit("<");
        reveal_strlit(">");
        reveal_strlit("<=");
        reveal_strlit(">=");
    }
    let t = strip_balanced_outer_parens(conjunct);
    if !expression_references_identifier(t.as_str(), candidate) {
        return None;
    }
    let parsed = match ParsedRepairComparison::parse(t.as_str()) {
        Some(p) => p,
        None => return None,
    };
    let left = compact_predicate_text(parsed.left.as_str());
    let right = compact_predicate_text(parsed.right.as_str());
    if str_eq(left.as_str(), right.as_str()) {
        return None;
    }
    if str_eq(parsed.operator, ">") || str_eq(parsed.operator, ">=") {
        let strict = str_eq(parsed.operator, ">");
        Some(OrderBoundCandidateClause { left: right, right: left, strict })
    } else if str_eq(parsed.operator, "<") || str_eq(parsed.operator, "<=") {
        let strict = str_eq(parsed.operator, "<");
        Some(OrderBoundCandidateClause { left, right, strict })
    } else {
        None
    }
}

/// A comparison read with `>` and `>=` turned around, when it parses.
pub open spec fn normalized_view(s: Seq<char>) -> Option<(Seq<char>, Seq<char>, Seq<char>)> {
    match parse_comparison_from(strip_parens(s), 0) {
        Some(p) => Some(normalized_comparison(p)),
        None => None,
    }
}

/// The operands of an inclusive comparison `a <= b` (or `b >= a`) that mentions the
/// candidate, compacted, when they differ.
pub open spec fn inclusive_view(d: Seq<char>, candidate: Seq<char>) -> Option<(Seq<char>, Seq<char>)> {
    if !references(d, candidate) {
        None
    } else {
        match normalized_view(d) {
            Some((l, op, r)) => if op != "<="@ || compact(l) == compact(r) {
                None
            } else {
                Some((compact(l), compact(r)))
            },
            None => None,
        }
    }
}

/// The two operands of an inclusive order comparison.
pub struct InclusiveTotalOrderCandidateClause {
    pub left: String,
    pub right: String,
}

/// The operands of `disjunct`, when it is an inclusive order comparison of two
/// different operands that mentions the candidate.
pub fn inclusive_total_order_candidate_clause(disjunct: &str, candidate: &str) -> (r: Option<InclusiveTotalOrderCandidateClause>)
    ensures
        match r {
            Some(c) => inclusive_view(disjunct@, candidate@) == Some((c.left@, c.right@)),
            None => inclusive_view(disjunct@, candidate@) is None,
        },
{
    proof { reveal_strlit("<="); }
    if !expression_references_identifier(disjunct, candidate) {
        return None;
    }
    let parsed = match NormalizedRepairComparison::parse(disjunct) {
        Some(p) => p,
        None => return None,
    };
    if !str_eq(parsed.operator, "<=") {
        return None;
    }
    let left = compact_predicate_text(parsed.left.as_str());
    let right = compact_predicate_text(parsed.right.as_str());
    if str_eq(left.as_str(), right.as_str()) {
        None
    } else {
        Some(InclusiveTotalOrderCandidateClause { left, right })
    }
}

/// Whether two comparisons have the same operands, the left of one being the right of
/// the other, after compacting.
pub open spec fn reversed_operands(a: (Seq<char>, Seq<char>, Seq<char>), b: (Seq<char>, Seq<char>, Seq<char>)) -> bool {
    compact(a.0) == compact(b.2) && compact(a.2) == compact(b.0)
}

/// Whether two comparisons have the same operands, in either order, after compacting.
pub open spec fn same_operands(a: (Seq<char>, Seq<char>, Seq<char>), b: (Seq<char>, Seq<char>, Seq<char>)) -> bool {
    (compact(a.0) == compact(b.0) && compact(a.2) == compact(b.2)) || reversed_operands(a, b)
}

impl NormalizedRepairComparison {
    /// Whether the two comparisons have the same operands, in either order.
    pub fn same_operands_unordered(&self, other: &NormalizedRepairComparison) -> (r: bool)
        ensures
            r == same_operands((self.left@, self.operator@, self.right@), (other.left@, other.operator@, other.right@)),
    {
        let a = compact_predicate_text(self.left.as_str());
        let b = compact_predicate_text(other.left.as_str());
        let c = compact_predicate_text(self.right.as_str());
        let d = compact_predicate_text(other.right.as_str());
        (str_eq(a.as_str(), b.as_str()) && str_eq(c.as_str(), d.as_str())) || self.same_operands_reversed(other)
    }

    /// Whether the left operand of each is the right operand of the other.
    pub fn same_operands_reversed(&self, other: &NormalizedRepairComparison) -> (r: bool)
        ensures
            r == reversed_operands((self.left@, self.operator@, self.right@), (other.left@, other.operator@, other.right@)),
    {
        let a = compact_predicate_text(self.left.as_str());
        let b = compact_predicate_text(other.right.as_str());
        let c = compact_predicate_text(self.right.as_str());
        let d = compact_predicate_text(other.left.as_str());
        str_eq(a.as_str(), b.as_str()) && str_eq(c.as_str(), d.as_str())
    }
}

/// Whether two comparisons, one of which mentions the candidate, cover every case
/// together: `a == b` beside `a != b`, or `a < b` beside `b <= a`.
pub open spec fn complementary(left: Seq<char>, right: Seq<char>, candidate: Seq<char>) -> bool {
    if !references(left, candidate) && !references(right, candidate) {
        false
    } else {
        match (normalized_view(left), normalized_view(right)) {
            (Some(a), Some(b)) => if (a.1 == "=="@ && b.1 == "!="@) || (a.1 == "!="@ && b.1 == "=="@) {
                same_operands(a, b)
            } else if (a.1 == "<"@ && b.1 == "<="@) || (a.1 == "<="@ && b.1 == "<"@) {
                reversed_operands(a, b) || same_operands(a, b)
            } else {
                false
            },
            _ => false,
        }
    }
}

/// Whether the comparisons `left` and `right`, one of which mentions the candidate,
/// cover every case together.
pub fn complementary_candidate_comparisons(left: &str, right: &str, candidate: &str) -> (r: bool)
    ensures
        r == complementary(left@, right@, candidate@),
{
    proof {
        reveal_strlit("==");
        reveal_strlit("!=");
        reveal_strlit("<");
        reveal_strlit("<=");
    }
    if !expression_references_identifier(left, candidate) && !expression_references_identifier(right, candidate) {
        return false;
    }
    let l = match NormalizedRepairComparison::parse(left) {
        Some(l) => l,
        None => return false,
    };
    let r = match NormalizedRepairComparison::parse(right) {
        Some(r) => r,
        None => return false,
    };
    if (str_eq(l.operator, "==") && str_eq(r.operator, "!=")) || (str_eq(l.operator, "!=") && str_eq(r.operator, "==")) {
        l.same_operands_unordered(&r)
    } else if (str_eq(l.operator, "<") && str_eq(r.operator, "<=")) || (str_eq(l.operator, "<=") && str_eq(r.operator, "<")) {
        l.same_operands_reversed(&r) || l.same_operands_unordered(&r)
    } else {
        false
    }
}

/// Whether two comparisons cover every case together does not depend on which of them
/// comes first.
pub proof fn law_complementary_symmetric(left: Seq<char>, right: Seq<char>, candidate: Seq<char>)
    ensures
        complementary(left, right, candidate) == complementary(right, left, candidate),
{
}

/// Whether two of the disjuncts, the first before the second, cover every case
/// together.
pub open spec fn complementary_pair(ds: Seq<Seq<char>>, candidate: Seq<char>) -> bool {
    exists|i: int, j: int| 0 <= i < j < ds.len() && #[trigger] complementary(ds[i], ds[j], candidate)
}

/// Whether two of the disjuncts cover every case together.
pub fn has_complementary_candidate_comparison_disjuncts(disjuncts: &Vec<String>, candidate: &str) -> (r: bool)
    ensures
        r == complementary_pair(disjuncts.deep_view(), candidate@),
{
    let ghost ds = disjuncts.deep_view();
    let n = disjuncts.len();
    let mut i: usize = 0;
    while i < n
        invariant
            0 <= i <= n,
            n == ds.len(),
            ds == disjuncts.deep_view(),
            forall|a: int, b: int| 0 <= a < i && a < b < n ==> !#[trigger] complementary(ds[a], ds[b], candidate@),
        decreases n - i,
    {
        let mut j: usize = i + 1;
        while j < n
            invariant
                i < n,
                i + 1 <= j <= n,
                n == ds.len(),
                ds == disjuncts.deep_view(),
                forall|a: int, b: int| 0 <= a < i && a < b < n ==> !#[trigger] complementary(ds[a], ds[b], candidate@),
                forall|b: int| i < b < j ==> !#[trigger] complementary(ds[i as int], ds[b], candidate@),
            decreases n - j,
        {
            assert(disjuncts@[i as int]@ == ds[i as int]);
            assert(disjuncts@[j as int]@ == ds[j as int]);
            if complementary_candidate_comparisons(disjuncts[i].as_str(), disjuncts[j].as_str(), candidate) {
                return true;
            }
            j += 1;
        }
        i += 1;
    }
    false
}

/// Whether the inclusive comparisons `x` and `y` run in opposite directions between the
/// same operands.
pub open spec fn opposite_inclusive(x: Option<(Seq<char>, Seq<char>)>, y: Option<(Seq<char>, Seq<char>)>) -> bool {
    match (x, y) {
        (Some(a), Some(b)) => a.0 == b.1 && a.1 == b.0,
        _ => false,
    }
}

/// Whether two of the disjuncts are `a <= b` and `b <= a` for the same operands.
pub open spec fn inclusive_pair(ds: Seq<Seq<char>>, candidate: Seq<char>) -> bool {
    exists|i: int, j: int| 0 <= i < j < ds.len()
        && #[trigger] opposite_inclusive(inclusive_view(ds[i], candidate), inclusive_view(ds[j], candidate))
}

/// Whether two of the disjuncts are `a <= b` and `b <= a`, which together hold always.
pub fn has_inclusive_total_order_candidate_disjuncts(disjuncts: &Vec<String>, candidate: &str) -> (r: bool)
    ensures
        r == inclusive_pair(disjuncts.deep_view(), candidate@),
{
    let ghost ds = disjuncts.deep_view();
    let n = disjuncts.len();
    let mut i: usize = 0;
    while i < n
        invariant
            0 <= i <= n,
            n == ds.len(),
            ds == disjuncts.deep_view(),
            forall|a: int, b: int| 0 <= a < i && a < b < n
                ==> !#[trigger] opposite_inclusive(inclusive_view(ds[a], candidate@), inclusive_view(ds[b], candidate@)),
        decreases n - i,
    {
        assert(disjuncts@[i as int]@ == ds[i as int]);
        let first = inclusive_total_order_candidate_clause(disjuncts[i].as_str(), candidate);
        let mut j: usize = i + 1;
        while j < n
            invariant
                i < n,
                i + 1 <= j <= n,
                n == ds.len(),
                ds == disjuncts.deep_view(),
                first matches Some(c) ==> inclusive_view(ds[i as int], candidate@) == Some((c.left@, c.right@)),
                first is None ==> inclusive_view(ds[i as int], candidate@) is None,
                forall|a: int, b: int| 0 <= a < i && a < b < n
                    ==> !#[trigger] opposite_inclusive(inclusive_view(ds[a], candidate@), inclusive_view(ds[b], candidate@)),
                forall|b: int| i < b < j
                    ==> !#[trigger] opposite_inclusive(inclusive_view(ds[i as int], candidate@), inclusive_view(ds[b], candidate@)),
            decreases n - j,
        {
            assert(disjuncts@[j as int]@ == ds[j as int]);
            match &first {
                Some(f) => {
                    match inclusive_total_order_candidate_clause(disjuncts[j].as_str(), candidate) {
                        Some(o) => {
                            if str_eq(f.left.as_str(), o.right.as_str()) && str_eq(f.right.as_str(), o.left.as_str()) {
                                assert(opposite_inclusive(inclusive_view(ds[i as int], candidate@), inclusive_view(ds[j as int], candidate@)));
                                return true;
                            }
                        },
                        None => {},
                    }
                },
                None => {},
            }
            j += 1;
        }
        i += 1;
    }
    false
}

/// Whether the relation `rel` between the operands of `f` is stated by `f` itself or by
/// a disjunct after position `i`.
pub open spec fn relation_follows(
    ds: Seq<Seq<char>>,
    candidate: Seq<char>,
    i: int,
    f: (Seq<char>, Seq<char>, TotalOrderRelation),
    rel: TotalOrderRelation,
) -> bool {
    f.2 == rel || exists|j: int| i < j < ds.len() && #[trigger] total_order_view(ds[j], candidate) == Some((f.0, f.1, rel))
}

/// Whether the disjunct at `i`, with the ones after it, states all three of `<`, `==`
/// and `>` between the same two operands.
pub open spec fn covers_all_relations(ds: Seq<Seq<char>>, candidate: Seq<char>, i: int) -> bool {
    match total_order_view(ds[i], candidate) {
        Some(f) => relation_follows(ds, candidate, i, f, TotalOrderRelation::Less)
            && relation_follows(ds, candidate, i, f, TotalOrderRelation::Equal)
            && relation_follows(ds, candidate, i, f, TotalOrderRelation::Greater),
        None => false,
    }
}

/// Whether three or more disjuncts state `<`, `==` and `>` between the same operands.
pub open spec fn total_order_cover(ds: Seq<Seq<char>>, candidate: Seq<char>) -> bool {
    ds.len() >= 3 && exists|i: int| 0 <= i < ds.len() && #[trigger] covers_all_relations(ds, candidate, i)
}

/// Whether the disjuncts state `<`, `==` and `>` between the same two operands, which
/// together hold always.
pub fn has_total_order_candidate_disjuncts(disjuncts: &Vec<String>, candidate: &str) -> (r: bool)
    ensures
        r == total_order_cover(disjuncts.deep_view(), candidate@),
{
    let ghost ds = disjuncts.deep_view();
    let n = disjuncts.len();
    if n < 3 {
        return false;
    }
    let mut i: usize = 0;
    while i < n
        invariant
            0 <= i <= n,
            n == ds.len(),
            ds == disjuncts.deep_view(),
            forall|a: int| 0 <= a < i ==> !#[trigger] covers_all_relations(ds, candidate@, a),
        decreases n - i,
    {
        assert(disjuncts@[i as int]@ == ds[i as int]);
        match total_order_candidate_clause(disjuncts[i].as_str(), candidate) {
            None => {},
            Some(f) => {
                let ghost fv = (f.left@, f.right@, f.relation);
                let mut less = f.relation == TotalOrderRelation::Less;
                let mut equal = f.relation == TotalOrderRelation::Equal;
                let mut greater = f.relation == TotalOrderRelation::Greater;
                let mut j: usize = i + 1;
                while j < n
                    invariant
                        i < n,
                        i + 1 <= j <= n,
                        n == ds.len(),
                        ds == disjuncts.deep_view(),
                        fv == (f.left@, f.right@, f.relation),
                        total_order_view(ds[i as int], candidate@) == Some(fv),
                        less == (fv.2 == TotalOrderRelation::Less || exists|b: int| i < b < j
                            && #[trigger] total_order_view(ds[b], candidate@) == Some((fv.0, fv.1, TotalOrderRelation::Less))),
                        equal == (fv.2 == TotalOrderRelation::Equal || exists|b: int| i < b < j
                            && #[trigger] total_order_view(ds[b], candidate@) == Some((fv.0, fv.1, TotalOrderRelation::Equal))),
                        greater == (fv.2 == TotalOrderRelation::Greater || exists|b: int| i < b < j
                            && #[trigger] total_order_view(ds[b], candidate@) == Some((fv.0, fv.1, TotalOrderRelation::Greater))),
                    decreases n - j,
                {
                    assert(disjuncts@[j as int]@ == ds[j as int]);
                    let ghost jj = j as int;
                    match total_order_candidate_clause(disjuncts[j].as_str(), candidate) {
                        Some(o) => {
                            if str_eq(o.left.as_str(), f.left.as_str()) && str_eq(o.right.as_str(), f.right.as_str()) {
                                if o.relation == TotalOrderRelation::Less {
                                    less = true;
                                } else if o.relation == TotalOrderRelation::Equal {
                                    equal = true;
                                } else {
                                    greater = true;
                                }
                            }
                        },
                        None => {},
                    }
                    proof {
                        assert(total_order_view(ds[jj], candidate@) == total_order_view(ds[jj], candidate@));
                    }
                    j += 1;
                }
                if less && equal && greater {
                    assert(covers_all_relations(ds, candidate@, i as int));
                    return true;
                }
            },
        }
        i += 1;
    }
    false
}

/// Whether two conjuncts state different relations of `<`, `==` and `>` between the
/// same operands, so that they cannot hold together.
pub open spec fn exclusive_relations(
    x: Option<(Seq<char>, Seq<char>, TotalOrderRelation)>,
    y: Option<(Seq<char>, Seq<char>, TotalOrderRelation)>,
) -> bool {
    match (x, y) {
        (Some(f), Some(o)) => o.0 == f.0 && o.1 == f.1 && o.2 != f.2,
        _ => false,
    }
}

/// Whether two of two or more conjuncts state different order relations between the
/// same operands.
pub open spec fn exclusive_order_pair(cs: Seq<Seq<char>>, candidate: Seq<char>) -> bool {
    cs.len() >= 2 && exists|i: int, j: int| 0 <= i < j < cs.len()
        && #[trigger] exclusive_relations(total_order_view(cs[i], candidate), total_order_view(cs[j], candidate))
}

/// Whether two conjuncts state different order relations between the same operands,
/// so that the conjunction never holds.
pub fn has_exclusive_order_candidate_conjuncts(conjuncts: &Vec<String>, candidate: &str) -> (r: bool)
    ensures
        r == exclusive_order_pair(conjuncts.deep_view(), candidate@),
{
    let ghost cs = conjuncts.deep_view();
    let n = conjuncts.len();
    if n < 2 {
        return false;
    }
    let mut i: usize = 0;
    while i < n
        invariant
            0 <= i <= n,
            n == cs.len(),
            cs == conjuncts.deep_view(),
            forall|a: int, b: int| 0 <= a < i && a < b < n
                ==> !#[trigger] exclusive_relations(total_order_view(cs[a], candidate@), total_order_view(cs[b], candidate@)),
        decreases n - i,
    {
        assert(conjuncts@[i as int]@ == cs[i as int]);
        let first = total_order_candidate_clause(conjuncts[i].as_str(), candidate);
        let mut j: usize = i + 1;
        while j < n
            invariant
                i < n,
                i + 1 <= j <= n,
                n == cs.len(),
                cs == conjuncts.deep_view(),
                first matches Some(f) ==> total_order_view(cs[i as int], candidate@) == Some((f.left@, f.right@, f.relation)),
                first is None ==> total_order_view(cs[i as int], candidate@) is None,
                forall|a: int, b: int| 0 <= a < i && a < b < n
                    ==> !#[trigger] exclusive_relations(total_order_view(cs[a], candidate@), total_order_view(cs[b], candidate@)),
                forall|b: int| i < b < j
                    ==> !#[trigger] exclusive_relations(total_order_view(cs[i as int], candidate@), total_order_view(cs[b], candidate@)),
            decreases n - j,
        {
            assert(conjuncts@[j as int]@ == cs[j as int]);
            match &first {
                Some(f) => {
                    match total_order_candidate_clause(conjuncts[j].as_str(), candidate) {
                        Some(o) => {
                            if str_eq(o.left.as_str(), f.left.as_str()) && str_eq(o.right.as_str(), f.right.as_str())
                                && o.relation != f.relation {
                                assert(exclusive_relations(total_order_view(cs[i as int], candidate@), total_order_view(cs[j as int], candidate@)));
                                return true;
                            }
                        },
                        None => {},
                    }
                },
                None => {},
            }
            j += 1;
        }
        i += 1;
    }
    false
}

/// Whether two bounds run in opposite directions between the same operands, one of
/// them strict, so that they cannot hold together.
pub open spec fn exclusive_bounds(x: Option<(Seq<char>, Seq<char>, bool)>, y: Option<(Seq<char>, Seq<char>, bool)>) -> bool {
    match (x, y) {
        (Some(f), Some(o)) => f.0 == o.1 && f.1 == o.0 && (f.2 || o.2),
        _ => false,
    }
}

/// Whether two of two or more conjuncts are opposite bounds, one of them strict.
pub open spec fn exclusive_bound_pair(cs: Seq<Seq<char>>, candidate: Seq<char>) -> bool {
    cs.len() >= 2 && exists|i: int, j: int| 0 <= i < j < cs.len()
        && #[trigger] exclusive_bounds(order_bound_view(cs[i], candidate), order_bound_view(cs[j], candidate))
}

/// Whether two conjuncts are opposite bounds between the same operands, one of them
/// strict, such as `a < b` and `b <= a`, so that the conjunction never holds.
pub fn has_exclusive_inclusive_order_candidate_conjuncts(conjuncts: &Vec<String>, candidate: &str) -> (r: bool)
    ensures
        r == exclusive_bound_pair(conjuncts.deep_view(), candidate@),
{
    let ghost cs = conjuncts.deep_view();
    let n = conjuncts.len();
    if n < 2 {
        return false;
    }
    let mut i: usize = 0;
    while i < n
        invariant
            0 <= i <= n,
            n == cs.len(),
            cs == conjuncts.deep_view(),
            forall|a: int, b: int| 0 <= a < i && a < b < n
                ==> !#[trigger] exclusive_bounds(order_bound_view(cs[a], candidate@), order_bound_view(cs[b], candidate@)),
        decreases n - i,
    {
        assert(conjuncts@[i as int]@ == cs[i as int]);
        let first = order_bound_candidate_clause(conjuncts[i].as_str(), candidate);
        let mut j: usize = i + 1;
        while j < n
            invariant
                i < n,
                i + 1 <= j <= n,
                n == cs.len(),
                cs == conjuncts.deep_view(),
                first matches Some(f) ==> order_bound_view(cs[i as int], candidate@) == Some((f.left@, f.right@, f.strict)),
                first is None ==> order_bound_view(cs[i as int], candidate@) is None,
                forall|a: int, b: int| 0 <= a < i && a < b < n
                    ==> !#[trigger] exclusive_bounds(order_bound_view(cs[a], candidate@), order_bound_view(cs[b], candidate@)),
                forall|b: int| i < b < j
                    ==> !#[trigger] exclusive_bounds(order_bound_view(cs[i as int], candidate@), order_bound_view(cs[b], candidate@)),
            decreases n - j,
        {
            assert(conjuncts@[j as int]@ == cs[j as int]);
            match &first {
                Some(f) => {
                    match order_bound_candidate_clause(conjuncts[j].as_str(), candidate) {
                        Some(o) => {
                            if str_eq(f.left.as_str(), o.right.as_str()) && str_eq(f.right.as_str(), o.left.as_str())
                                && (f.strict || o.strict) {
                                assert(exclusive_bounds(order_bound_view(cs[i as int], candidate@), order_bound_view(cs[j as int], candidate@)));
                                return true;
                            }
                        },
                        None => {},
                    }
                },
                None => {},
            }
            j += 1;
        }
        i += 1;
    }
    false
}

/// The key a disjunct is compared by when looking for a clause beside its negation:
/// whether it is negated, and the canonical form of the clause under the negation;
/// only for disjuncts that mention the candidate.
pub open spec fn disjunct_key(d: Seq<char>, candidate: Seq<char>) -> Option<(bool, Seq<char>)> {
    let t = strip_parens(d);
    let (negated, clause) = match not_operand(t) {
        Some(inner) => (true, strip_parens(inner)),
        None => (false, t),
    };
    if references(clause, candidate) { Some((negated, canonical(clause))) } else { None }
}

/// The key `disjunct` is compared by when looking for a clause beside its negation.
pub fn complementary_disjunct_key(disjunct: &str, candidate: &str) -> (r: Option<(bool, String)>)
    ensures
        match r {
            Some((negated, key)) => disjunct_key(disjunct@, candidate@) == Some((negated, key@)),
            None => disjunct_key(disjunct@, candidate@) is None,
        },
{
    let t = strip_balanced_outer_parens(disjunct);
    let (negated, clause) = match stripped_not_operand(t.as_str()) {
        Some(inner) => (true, strip_balanced_outer_parens(inner.as_str())),
        None => (false, t),
    };
    if expression_references_identifier(clause.as_str(), candidate) {
        Some((negated, canonical_repair_clause(clause.as_str())))
    } else {
        None
    }
}

/// Whether two keys are a clause and its negation.
pub open spec fn opposite_keys(x: Option<(bool, Seq<char>)>, y: Option<(bool, Seq<char>)>) -> bool {
    match (x, y) {
        (Some(a), Some(b)) => a.0 != b.0 && a.1 == b.1,
        _ => false,
    }
}

/// Whether two disjuncts cover every case together: complementary comparisons, or a
/// clause beside its negation.
pub open spec fn complementary_disjuncts(ds: Seq<Seq<char>>, candidate: Seq<char>) -> bool {
    complementary_pair(ds, candidate) || exists|i: int, j: int| 0 <= i < j < ds.len()
        && #[trigger] opposite_keys(disjunct_key(ds[i], candidate), disjunct_key(ds[j], candidate))
}

/// Whether two of the disjuncts cover every case together, so that the disjunction
/// always holds.
pub fn has_complementary_candidate_disjuncts(disjuncts: &Vec<String>, candidate: &str) -> (r: bool)
    ensures
        r == complementary_disjuncts(disjuncts.deep_view(), candidate@),
{
    if has_complementary_candidate_comparison_disjuncts(disjuncts, candidate) {
        return true;
    }
    let ghost ds = disjuncts.deep_view();
    let n = disjuncts.len();
    let mut j: usize = 0;
    while j < n
        invariant
            0 <= j <= n,
            n == ds.len(),
            ds == disjuncts.deep_view(),
            !complementary_pair(ds, candidate@),
            forall|a: int, b: int| 0 <= a < b < j
                ==> !#[trigger] opposite_keys(disjunct_key(ds[a], candidate@), disjunct_key(ds[b], candidate@)),
        decreases n - j,
    {
        assert(disjuncts@[j as int]@ == ds[j as int]);
        match complementary_disjunct_key(disjuncts[j].as_str(), candidate) {
            None => {
                assert forall|a: int, b: int| 0 <= a < b < j + 1
                    implies !#[trigger] opposite_keys(disjunct_key(ds[a], candidate@), disjunct_key(ds[b], candidate@)) by {
                    if b == j {
                    }
                }
            },
            Some((negated, key)) => {
                let mut i: usize = 0;
                while i < j
                    invariant
                        0 <= i <= j < n,
                        n == ds.len(),
                        ds == disjuncts.deep_view(),
                        disjunct_key(ds[j as int], candidate@) == Some((negated, key@)),
                        forall|a: int| 0 <= a < i
                            ==> !#[trigger] opposite_keys(disjunct_key(ds[a], candidate@), disjunct_key(ds[j as int], candidate@)),
                    decreases j - i,
                {
                    assert(disjuncts@[i as int]@ == ds[i as int]);
                    match complementary_disjunct_key(disjuncts[i].as_str(), candidate) {
                        Some((other_negated, other_key)) => {
                            if other_negated != negated && str_eq(other_key.as_str(), key.as_str()) {
                                assert(opposite_keys(disjunct_key(ds[i as int], candidate@), disjunct_key(ds[j as int], candidate@)));
                                return true;
                            }
                        },
                        None => {},
                    }
                    i += 1;
                }
            },
        }
        j += 1;
    }
    false
}

/// Whether `b` can stand for the candidate: another plain name such that the
/// candidate's expression with the candidate replaced by `b` reads as the binding's
/// expression.
pub open spec fn matching_binding(candidate_expr: Seq<char>, binding_expr: Seq<char>, candidate: Seq<char>, b: Seq<char>) -> bool {
    b != candidate && plain_identifier(b)
        && direct_expression(replaced(candidate_expr, candidate, b)) == direct_expression(binding_expr)
}

/// The names among `ids` that can stand for the candidate, in order.
pub open spec fn matching_bindings(ids: Seq<Seq<char>>, candidate_expr: Seq<char>, binding_expr: Seq<char>, candidate: Seq<char>) -> Seq<Seq<char>>
    decreases ids.len(),
{
    if ids.len() == 0 {
        Seq::empty()
    } else {
        let init = matching_bindings(ids.drop_last(), candidate_expr, binding_expr, candidate);
        if matching_binding(candidate_expr, binding_expr, candidate, ids.last()) { init.push(ids.last()) } else { init }
    }
}

/// The binding a reflexive comparison of expressions suggests: when the candidate's
/// expression mentions the candidate and the other does not, the one name of the other
/// expression that can stand for the candidate.
pub open spec fn expression_binding(candidate_expr: Seq<char>, binding_expr: Seq<char>, candidate: Seq<char>) -> Option<Seq<char>> {
    if !references(candidate_expr, candidate) || references(binding_expr, candidate) {
        None
    } else {
        let ms = matching_bindings(identifiers(binding_expr), candidate_expr, binding_expr, candidate);
        if ms.len() == 1 { Some(ms[0]) } else { None }
    }
}

/// Whether reading the expressions for the bindings stays clear of a lone `"`.
pub open spec fn expression_binding_safe(candidate_expr: Seq<char>, binding_expr: Seq<char>, candidate: Seq<char>) -> bool {
    (references(candidate_expr, candidate) && !references(binding_expr, candidate)) ==> forall|i: int|
        0 <= i < identifiers(binding_expr).len() && #[trigger] identifiers(binding_expr)[i] != candidate
            && plain_identifier(identifiers(binding_expr)[i])
        ==> direct_expression_safe(replaced(candidate_expr, candidate, identifiers(binding_expr)[i]))
            && direct_expression_safe(binding_expr)
}

/// The one name of `binding_expr` that can stand for the candidate in
/// `candidate_expr`, when there is exactly one.
pub fn reflexive_expression_binding(candidate_expr: &str, binding_expr: &str, candidate: &str) -> (r: Option<String>)
    requires
        expression_binding_safe(candidate_expr@, binding_expr@, candidate@),
    ensures
        match r {
            Some(b) => expression_binding(candidate_expr@, binding_expr@, candidate@) == Some(b@),
            None => expression_binding(candidate_expr@, binding_expr@, candidate@) is None,
        },
{
    if !expression_references_identifier(candidate_expr, candidate) || expression_references_identifier(binding_expr, candidate) {
        return None;
    }
    let ids = expression_identifiers(binding_expr);
    let ghost idv = ids.deep_view();
    let mut matching: Vec<String> = Vec::new();
    let mut i: usize = 0;
    assert(idv.take(0) =~= Seq::<Seq<char>>::empty());
    assert(matching.deep_view() =~= Seq::<Seq<char>>::empty());
    while i < ids.len()
        invariant
            0 <= i <= ids@.len(),
            idv == ids.deep_view(),
            idv == identifiers(binding_expr@),
            expression_binding_safe(candidate_expr@, binding_expr@, candidate@),
            references(candidate_expr@, candidate@) && !references(binding_expr@, candidate@),
            matching.deep_view() == matching_bindings(idv.take(i as int), candidate_expr@, binding_expr@, candidate@),
        decreases ids.len() - i,
    {
        let b = &ids[i];
        assert(ids@[i as int]@ == idv[i as int]);
        assert(idv.take(i + 1).drop_last() =~= idv.take(i as int));
        assert(idv.take(i + 1).last() == idv[i as int]);
        if !str_eq(b.as_str(), candidate) && is_plain_identifier(b.as_str()) {
            let replaced_text = replace_identifier(candidate_expr, candidate, b.as_str());
            let left = compact_direct_repair_expression_text(replaced_text.as_str());
            let right = compact_direct_repair_expression_text(binding_expr);
            if str_eq(left.as_str(), right.as_str()) {
                let ghost before = matching.deep_view();
                matching.push(b.clone());
                assert(matching.deep_view() =~= before.push(idv[i as int]));
            }
        }
        i += 1;
    }
    assert(idv.take(idv.len() as int) =~= idv);
    if matching.len() == 1 {
        assert(matching@[0]@ == matching.deep_view()[0]);
        Some(matching[0].clone())
    } else {
        None
    }
}

/// The binding a reflexive comparison split at `operator` suggests, reading either side
/// as the candidate's.
pub open spec fn expression_operand_binding(predicate: Seq<char>, candidate: Seq<char>, operator: Seq<char>) -> Option<Seq<char>> {
    match split_once_view(predicate, operator) {
        Some((l, r)) => match expression_binding(l, r, candidate) {
            Some(b) => Some(b),
            None => expression_binding(r, l, candidate),
        },
        None => None,
    }
}

/// Whether reading the sides of a comparison for bindings stays clear of a lone `"`.
pub open spec fn expression_operand_safe(predicate: Seq<char>, candidate: Seq<char>, operator: Seq<char>) -> bool {
    match split_once_view(predicate, operator) {
        Some((l, r)) => expression_binding_safe(l, r, candidate)
            && (expression_binding(l, r, candidate) is None ==> expression_binding_safe(r, l, candidate)),
        None => true,
    }
}

/// The binding a reflexive comparison of expressions suggests, in either direction.
pub fn reflexive_expression_operand(predicate: &str, candidate: &str, operator: &str) -> (r: Option<String>)
    requires
        expression_operand_safe(predicate@, candidate@, operator@),
    ensures
        match r {
            Some(b) => expression_operand_binding(predicate@, candidate@, operator@) == Some(b@),
            None => expression_operand_binding(predicate@, candidate@, operator@) is None,
        },
{
    let (left, right) = match split_once(predicate, operator) {
        Some(parts) => parts,
        None => return None,
    };
    match reflexive_expression_binding(left.as_str(), right.as_str(), candidate) {
        Some(b) => Some(b),
        None => reflexive_expression_binding(right.as_str(), left.as_str(), candidate),
    }
}

/// Whether `left` and `right` read as the same expression and it mentions the
/// candidate, so that comparing them with `==` or `<=` always holds.
pub open spec fn tautological_expression(left: Seq<char>, right: Seq<char>, candidate: Seq<char>) -> bool {
    direct_expression(left) == direct_expression(right) && references(left, candidate)
}

/// Whether `left` and `right` read as the same expression mentioning the candidate.
pub fn tautological_candidate_expression(left: &str, right: &str, candidate: &str) -> (r: bool)
    requires
        direct_expression_safe(left@),
        direct_expression_safe(right@),
    ensures
        r == tautological_expression(left@, right@, candidate@),
{
    let l = compact_direct_repair_expression_text(left);
    let r = compact_direct_repair_expression_text(right);
    str_eq(l.as_str(), r.as_str()) && expression_references_identifier(left, candidate)
}

/// The normalized clauses among `cs` that are not empty, in order.
pub open spec fn nonempty_normalized(cs: Seq<Seq<char>>) -> Seq<Seq<char>>
    decreases cs.len(),
{
    if cs.len() == 0 {
        Seq::empty()
    } else {
        let init = nonempty_normalized(cs.drop_last());
        let n = normalized_clause(cs.last());
        if n.len() > 0 { init.push(n) } else { init }
    }
}

/// The conjuncts of `predicate` at top-level `and`, normalized, without empty ones.
pub fn normalized_and_clauses(predicate: &str) -> (r: Vec<String>)
    ensures
        r.deep_view() == nonempty_normalized(split_top(strip_parens(predicate@), "and"@)),
{
    proof { reveal_strlit("and"); }
    let stripped = strip_balanced_outer_parens(predicate);
    let parts = split_top_level_keyword(stripped.as_str(), "and");
    let ghost ps = parts.deep_view();
    let mut out: Vec<String> = Vec::new();
    let mut i: usize = 0;
    assert(ps.take(0) =~= Seq::<Seq<char>>::empty());
    assert(out.deep_view() =~= Seq::<Seq<char>>::empty());
    while i < parts.len()
        invariant
            0 <= i <= parts@.len(),
            ps == parts.deep_view(),
            out.deep_view() == nonempty_normalized(ps.take(i as int)),
        decreases parts.len() - i,
    {
        assert(ps.take(i + 1).drop_last() =~= ps.take(i as int));
        assert(ps.take(i + 1).last() == ps[i as int]);
        assert(parts@[i as int]@ == ps[i as int]);
        let n = normalized_predicate_clause(parts[i].as_str());
        if n.unicode_len() > 0 {
            let ghost before = out.deep_view();
            let ghost nv = n@;
            out.push(n);
            assert(out.deep_view() =~= before.push(nv));
        }
        i += 1;
    }
    assert(ps.take(ps.len() as int) =~= ps);
    out
}

/// The clauses among `cs` whose trimmed text is not empty, in order.
pub open spec fn nonblank(cs: Seq<Seq<char>>) -> Seq<Seq<char>>
    decreases cs.len(),
{
    if cs.len() == 0 {
        Seq::empty()
    } else {
        let init = nonblank(cs.drop_last());
        if trim(cs.last()).len() > 0 { init.push(cs.last()) } else { init }
    }
}

/// `cs` without the clauses that are the constant `true`.
pub open spec fn without_true(cs: Seq<Seq<char>>) -> Seq<Seq<char>>
    decreases cs.len(),
{
    if cs.len() == 0 {
        Seq::empty()
    } else {
        let init = without_true(cs.drop_last());
        if cs.last() == "true"@ { init } else { init.push(cs.last()) }
    }
}

/// The conjuncts a negated disjunction of two or more clauses stands for, by De
/// Morgan's law: `["false"]` when one of them is `false`, the others without `true`,
/// and `["true"]` when nothing is left.
pub open spec fn negated_disjunction(clause: Seq<char>) -> Option<Seq<Seq<char>>> {
    match not_operand(trim(clause)) {
        None => None,
        Some(n0) => {
            let ds = nonblank(split_top(strip_parens(n0), "or"@));
            if ds.len() <= 1 {
                None
            } else {
                match negate_each(ds) {
                    None => None,
                    Some(cs) => if cs.contains("false"@) {
                        Some(seq!["false"@])
                    } else if without_true(cs).len() == 0 {
                        Some(seq!["true"@])
                    } else {
                        Some(without_true(cs))
                    },
                }
            }
        },
    }
}

/// The conjuncts a negated disjunction stands for, when `clause` negates a disjunction
/// of two or more clauses that can each be negated.
pub fn canonical_negated_disjunction_repair_clauses(clause: &str) -> (r: Option<Vec<String>>)
    ensures
        match r {
            Some(cs) => negated_disjunction(clause@) == Some(cs.deep_view()),
            None => negated_disjunction(clause@) is None,
        },
{
    proof {
        reveal_strlit("true");
        reveal_strlit("false");
        reveal_strlit("or");
        reveal_strlit("not (");
        reveal_strlit(")");
    }
    let t = trimmed(clause);
    let n0 = match stripped_not_operand(t.as_str()) {
        Some(n) => n,
        None => return None,
    };
    let negated = strip_balanced_outer_parens(n0.as_str());
    let parts = split_top_level_keyword(negated.as_str(), "or");
    let ghost ps = parts.deep_view();
    let mut disjuncts: Vec<String> = Vec::new();
    let mut i: usize = 0;
    assert(ps.take(0) =~= Seq::<Seq<char>>::empty());
    assert(disjuncts.deep_view() =~= Seq::<Seq<char>>::empty());
    while i < parts.len()
        invariant
            0 <= i <= parts@.len(),
            ps == parts.deep_view(),
            disjuncts.deep_view() == nonblank(ps.take(i as int)),
        decreases parts.len() - i,
    {
        assert(ps.take(i + 1).drop_last() =~= ps.take(i as int));
        assert(ps.take(i + 1).last() == ps[i as int]);
        assert(parts@[i as int]@ == ps[i as int]);
        let tt = trimmed(parts[i].as_str());
        if tt.unicode_len() > 0 {
            let ghost before = disjuncts.deep_view();
            disjuncts.push(parts[i].clone());
            assert(disjuncts.deep_view() =~= before.push(ps[i as int]));
        }
        i += 1;
    }
    assert(ps.take(ps.len() as int) =~= ps);
    if disjuncts.len() <= 1 {
        return None;
    }
    let ghost ds = disjuncts.deep_view();
    let mut negs: Vec<String> = Vec::new();
    let mut k: usize = 0;
    assert(ds.take(0) =~= Seq::<Seq<char>>::empty());
    assert(negs.deep_view() =~= Seq::<Seq<char>>::empty());
    while k < disjuncts.len()
        invariant
            0 <= k <= disjuncts@.len(),
            ds == disjuncts.deep_view(),
            negate_each(ds.take(k as int)) == Some(negs.deep_view()),
        decreases disjuncts.len() - k,
    {
        let mut wrapped = string_of("not (");
        push_text(&mut wrapped, disjuncts[k].as_str());
        push_char(&mut wrapped, ')');
        assert(ds.take(k + 1).drop_last() =~= ds.take(k as int));
        assert(ds.take(k + 1).last() == ds[k as int]);
        assert(disjuncts@[k as int]@ == ds[k as int]);
        assert(wrapped@ =~= "not ("@ + ds[k as int] + ")"@);
        match canonical_negated_repair_or_atom_clause(wrapped.as_str()) {
            Some(x) => {
                let ghost before = negs.deep_view();
                let ghost xv = x@;
                negs.push(x);
                assert(negs.deep_view() =~= before.push(xv));
            },
            None => {
                proof { lemma_negate_each_prefix(ds, k + 1); }
                return None;
            },
        }
        k += 1;
    }
    assert(ds.take(ds.len() as int) =~= ds);
    let ghost cs = negs.deep_view();
    if contains_str(&negs, "false") {
        let mut only: Vec<String> = Vec::new();
        only.push(string_of("false"));
        assert(only.deep_view() =~= seq!["false"@]);
        return Some(only);
    }
    let mut kept: Vec<String> = Vec::new();
    let mut j: usize = 0;
    assert(cs.take(0) =~= Seq::<Seq<char>>::empty());
    assert(kept.deep_view() =~= Seq::<Seq<char>>::empty());
    while j < negs.len()
        invariant
            0 <= j <= negs@.len(),
            cs == negs.deep_view(),
            kept.deep_view() == without_true(cs.take(j as int)),
        decreases negs.len() - j,
    {
        assert(cs.take(j + 1).drop_last() =~= cs.take(j as int));
        assert(cs.take(j + 1).last() == cs[j as int]);
        assert(negs@[j as int]@ == cs[j as int]);
        if !str_eq(negs[j].as_str(), "true") {
            let ghost before = kept.deep_view();
            kept.push(negs[j].clone());
            assert(kept.deep_view() =~= before.push(cs[j as int]));
        }
        j += 1;
    }
    assert(cs.take(cs.len() as int) =~= cs);
    if kept.len() == 0 {
        let mut only: Vec<String> = Vec::new();
        only.push(string_of("true"));
        assert(only.deep_view() =~= seq!["true"@]);
        return Some(only);
    }
    Some(kept)
}

/// A clause as a list of conjuncts in canonical form: a negated conjunction or
/// disjunction expanded by De Morgan's law, else the clause's canonical form.
pub open spec fn non_disjunctive_clauses(clause: Seq<char>) -> Seq<Seq<char>> {
    match relevant_negated_and(clause) {
        Some(cs) => cs,
        None => match negated_disjunction(clause) {
            Some(cs) => cs,
            None => seq![canonical(clause)],
        },
    }
}

/// A clause as a list of conjuncts in canonical form.
pub fn canonical_non_disjunctive_repair_clauses(clause: &str) -> (r: Vec<String>)
    ensures
        r.deep_view() == non_disjunctive_clauses(clause@),
{
    match repair_relevant_negated_and_clauses(clause) {
        Some(cs) => return cs,
        None => {},
    }
    match canonical_negated_disjunction_repair_clauses(clause) {
        Some(cs) => cs,
        None => {
            let mut out: Vec<String> = Vec::new();
            let c = canonical_repair_clause(clause);
            let ghost cv = c@;
            out.push(c);
            assert(out.deep_view() =~= seq![cv]);
            out
        },
    }
}

} // verus!
