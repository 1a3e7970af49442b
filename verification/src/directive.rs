use vstd::prelude::*;

use crate::boolean_expression::{ident_end, lemma_ident_end, lemma_ident_end_at};
use crate::text::{
    bytes_of_str, is_ident_b, is_ident_byte, is_ws, is_ws_byte, str_to_bytes, subrange_bytes,
};

verus! {

/// The first position at or after `i` holding no whitespace byte.
pub open spec fn skip_ws(s: Seq<u8>, i: int) -> int
    decreases s.len() - i,
{
    if 0 <= i < s.len() && is_ws(s[i]) {
        skip_ws(s, i + 1)
    } else {
        i
    }
}

pub proof fn lemma_skip_ws(s: Seq<u8>, i: int)
    requires
        0 <= i <= s.len(),
    ensures
        i <= skip_ws(s, i) <= s.len(),
        forall|k: int| i <= k < skip_ws(s, i) ==> is_ws(s[k]),
        skip_ws(s, i) < s.len() ==> !is_ws(s[skip_ws(s, i)]),
    decreases s.len() - i,
{
    if i < s.len() && is_ws(s[i]) {
        lemma_skip_ws(s, i + 1);
    }
}

pub proof fn lemma_skip_ws_at(s: Seq<u8>, i: int, j: int)
    requires
        0 <= i <= j <= s.len(),
        forall|k: int| i <= k < j ==> is_ws(s[k]),
        j < s.len() ==> !is_ws(s[j]),
    ensures
        skip_ws(s, i) == j,
    decreases j - i,
{
    if i < j {
        lemma_skip_ws_at(s, i + 1, j);
    }
}

/// The first position at or after `i` holding a whitespace byte, or `s.len()`.
pub open spec fn nonws_end(s: Seq<u8>, i: int) -> int
    decreases s.len() - i,
{
    if 0 <= i < s.len() && !is_ws(s[i]) {
        nonws_end(s, i + 1)
    } else {
        i
    }
}

pub proof fn lemma_nonws_end_bounds(s: Seq<u8>, i: int)
    requires
        0 <= i <= s.len(),
    ensures
        i <= nonws_end(s, i) <= s.len(),
    decreases s.len() - i,
{
    if i < s.len() && !is_ws(s[i]) {
        lemma_nonws_end_bounds(s, i + 1);
    }
}

pub proof fn lemma_nonws_end_at(s: Seq<u8>, i: int, j: int)
    requires
        0 <= i <= j <= s.len(),
        forall|k: int| i <= k < j ==> !is_ws(s[k]),
        j < s.len() ==> is_ws(s[j]),
    ensures
        nonws_end(s, i) == j,
    decreases j - i,
{
    if i < j {
        lemma_nonws_end_at(s, i + 1, j);
    }
}

/// Whether everything at and after `i` is whitespace.
pub open spec fn all_ws(s: Seq<u8>, i: int) -> bool {
    forall|k: int| i <= k < s.len() ==> is_ws(s[k])
}

/// The position after the last non-whitespace byte of `s`.
pub open spec fn rtrim(s: Seq<u8>) -> int
    decreases s.len(),
{
    if s.len() == 0 {
        0
    } else if is_ws(s.last()) {
        rtrim(s.drop_last())
    } else {
        s.len() as int
    }
}

pub proof fn lemma_rtrim_bounds(s: Seq<u8>)
    ensures
        0 <= rtrim(s) <= s.len(),
    decreases s.len(),
{
    if s.len() > 0 && is_ws(s.last()) {
        lemma_rtrim_bounds(s.drop_last());
    }
}

pub proof fn lemma_rtrim_at(s: Seq<u8>, e: int)
    requires
        0 <= e <= s.len(),
        forall|k: int| e <= k < s.len() ==> is_ws(s[k]),
        e > 0 ==> !is_ws(s[e - 1]),
    ensures
        rtrim(s) == e,
    decreases s.len(),
{
    if s.len() > 0 && is_ws(s.last()) {
        lemma_rtrim_at(s.drop_last(), e);
    }
}

/// Whether the bytes of `pat` stand in `s` at position `i`.
pub open spec fn starts_with_seq(s: Seq<u8>, i: int, pat: Seq<u8>) -> bool {
    0 <= i && i + pat.len() <= s.len() && s.subrange(i, i + pat.len()) == pat
}

pub fn skip_ws_exec(v: &Vec<u8>, from: usize) -> (r: usize)
    requires
        from <= v@.len(),
    ensures
        r == skip_ws(v@, from as int),
        from <= r <= v@.len(),
{
    let n = v.len();
    let mut i = from;
    while i < n && is_ws_byte(v[i])
        invariant
            from <= i <= n == v@.len(),
            forall|k: int| from <= k < i ==> is_ws(v@[k]),
        decreases n - i,
    {
        i += 1;
    }
    proof {
        lemma_skip_ws_at(v@, from as int, i as int);
    }
    i
}

pub fn ident_end_exec(v: &Vec<u8>, from: usize) -> (r: usize)
    requires
        from <= v@.len(),
    ensures
        r == ident_end(v@, from as int),
        from <= r <= v@.len(),
{
    let n = v.len();
    let mut i = from;
    while i < n && is_ident_b(v[i])
        invariant
            from <= i <= n == v@.len(),
            forall|k: int| from <= k < i ==> is_ident_byte(v@[k]),
        decreases n - i,
    {
        i += 1;
    }
    proof {
        lemma_ident_end_at(v@, from as int, i as int);
    }
    i
}

pub fn nonws_end_exec(v: &Vec<u8>, from: usize) -> (r: usize)
    requires
        from <= v@.len(),
    ensures
        r == nonws_end(v@, from as int),
        from <= r <= v@.len(),
{
    let n = v.len();
    let mut i = from;
    while i < n && !is_ws_byte(v[i])
        invariant
            from <= i <= n == v@.len(),
            forall|k: int| from <= k < i ==> !is_ws(v@[k]),
        decreases n - i,
    {
        i += 1;
    }
    proof {
        lemma_nonws_end_at(v@, from as int, i as int);
    }
    i
}

pub fn all_ws_exec(v: &Vec<u8>, from: usize) -> (r: bool)
    requires
        from <= v@.len(),
    ensures
        r == all_ws(v@, from as int),
{
    let n = v.len();
    let mut i = from;
    while i < n && is_ws_byte(v[i])
        invariant
            from <= i <= n == v@.len(),
            forall|k: int| from <= k < i ==> is_ws(v@[k]),
        decreases n - i,
    {
        i += 1;
    }
    i == n
}

pub fn rtrim_exec(v: &Vec<u8>) -> (r: usize)
    ensures
        r == rtrim(v@),
        r <= v@.len(),
{
    let mut e = v.len();
    while e > 0 && is_ws_byte(v[e - 1])
        invariant
            e <= v@.len(),
            forall|k: int| e <= k < v@.len() ==> is_ws(v@[k]),
        decreases e,
    {
        e -= 1;
    }
    proof {
        lemma_rtrim_at(v@, e as int);
    }
    e
}

pub fn has_at(v: &Vec<u8>, i: usize, pat: &Vec<u8>) -> (r: bool)
    requires
        i <= v@.len(),
    ensures
        r == starts_with_seq(v@, i as int, pat@),
{
    let n = v.len();
    let m = pat.len();
    if n - i < m {
        return false;
    }
    let mut k: usize = 0;
    while k < m
        invariant
            k <= m == pat@.len(),
            i + m <= n == v@.len(),
            forall|t: int| 0 <= t < k ==> v@[i + t] == pat@[t],
        decreases m - k,
    {
        if v[i + k] != pat[k] {
            proof {
                assert(v@.subrange(i as int, i + m) != pat@) by {
                    assert(v@.subrange(i as int, i + m)[k as int] != pat@[k as int]);
                }
            }
            return false;
        }
        k += 1;
    }
    proof {
        assert(v@.subrange(i as int, i + m) =~= pat@);
    }
    true
}

} // verus!

verus! {

/// The position right after `@<keyword><whitespace...>`, if the line starts
/// that way (the sigil itself is assumed at position 0 and not rechecked).
pub open spec fn after_kw(s: Seq<u8>, kw: Seq<u8>) -> Option<int> {
    if starts_with_seq(s, 1, kw) && 1 + kw.len() < s.len() && is_ws(s[1 + kw.len() as int]) {
        Option::Some(skip_ws(s, 1 + kw.len() as int))
    } else {
        Option::None
    }
}

/// `@include "<path>"`: the path runs from right after the first quote to
/// the line's last non-whitespace byte, which must also be a quote.
pub open spec fn sp_match_include(s: Seq<u8>) -> Option<Seq<u8>> {
    match after_kw(s, bytes_of_str("include"@)) {
        Option::None => Option::None,
        Option::Some(k) => {
            let e = rtrim(s);
            if k < s.len() && s[k] == 34 && e - 1 > k && s[e - 1] == 34 {
                Option::Some(s.subrange(k + 1, e - 1))
            } else {
                Option::None
            }
        },
    }
}

/// `@define NAME "value"`, `@define NAME value` or `@define NAME`, tried in
/// that order; the last form defines the empty string.
pub open spec fn sp_match_define(s: Seq<u8>) -> Option<(Seq<u8>, Seq<u8>)> {
    match after_kw(s, bytes_of_str("define"@)) {
        Option::None => Option::None,
        Option::Some(k) => {
            let e1 = ident_end(s, k);
            if e1 <= k {
                Option::None
            } else {
                let name = s.subrange(k, e1);
                if all_ws(s, e1) {
                    Option::Some((name, Seq::empty()))
                } else if e1 < s.len() && is_ws(s[e1]) {
                    let w = skip_ws(s, e1);
                    let e = rtrim(s);
                    if w < s.len() && s[w] == 34 && e - 1 > w && s[e - 1] == 34 {
                        Option::Some((name, s.subrange(w + 1, e - 1)))
                    } else {
                        let v = nonws_end(s, w);
                        if v > w && all_ws(s, v) {
                            Option::Some((name, s.subrange(w, v)))
                        } else {
                            Option::None
                        }
                    }
                } else {
                    Option::None
                }
            }
        },
    }
}

/// `@<kw> NAME` with nothing but whitespace after the identifier.
pub open spec fn sp_match_one_ident(s: Seq<u8>, kw: Seq<u8>) -> Option<Seq<u8>> {
    match after_kw(s, kw) {
        Option::None => Option::None,
        Option::Some(k) => {
            let e1 = ident_end(s, k);
            if e1 > k && all_ws(s, e1) {
                Option::Some(s.subrange(k, e1))
            } else {
                Option::None
            }
        },
    }
}

/// `@<kw> <expression>`: everything after the whitespace run is the
/// expression text, trailing whitespace included.
pub open spec fn sp_match_expr(s: Seq<u8>, kw: Seq<u8>) -> Option<Seq<u8>> {
    match after_kw(s, kw) {
        Option::None => Option::None,
        Option::Some(k) => Option::Some(s.subrange(k, s.len() as int)),
    }
}

/// `@<kw>` with nothing but whitespace after the keyword.
pub open spec fn sp_match_bare(s: Seq<u8>, kw: Seq<u8>) -> bool {
    starts_with_seq(s, 1, kw) && all_ws(s, 1 + kw.len() as int)
}

/// The mathematical value of a `Directive`.
pub ghost enum DirectiveV {
    Include(Seq<u8>),
    Define(Seq<u8>, Seq<u8>),
    Undef(Seq<u8>),
    Ifdef(Seq<u8>),
    Ifndef(Seq<u8>),
    If(Seq<u8>),
    Elif(Seq<u8>),
    Endif,
    Else,
    Unrecognized,
}

/// A recognized preprocessor directive line, with its payload: the include
/// path text, the defined name and value, the tested name, or the raw
/// expression text. A sigil line matching no pattern is `Unrecognized`.
pub enum Directive {
    Include(Vec<u8>),
    Define(Vec<u8>, Vec<u8>),
    Undef(Vec<u8>),
    Ifdef(Vec<u8>),
    Ifndef(Vec<u8>),
    If(Vec<u8>),
    Elif(Vec<u8>),
    Endif,
    Else,
    Unrecognized,
}

impl View for Directive {
    type V = DirectiveV;

    open spec fn view(&self) -> DirectiveV {
        match self {
            Directive::Include(p) => DirectiveV::Include(p@),
            Directive::Define(k, v) => DirectiveV::Define(k@, v@),
            Directive::Undef(n) => DirectiveV::Undef(n@),
            Directive::Ifdef(n) => DirectiveV::Ifdef(n@),
            Directive::Ifndef(n) => DirectiveV::Ifndef(n@),
            Directive::If(e) => DirectiveV::If(e@),
            Directive::Elif(e) => DirectiveV::Elif(e@),
            Directive::Endif => DirectiveV::Endif,
            Directive::Else => DirectiveV::Else,
            Directive::Unrecognized => DirectiveV::Unrecognized,
        }
    }
}

/// Which directive a sigil line holds, the patterns tried in the fixed
/// priority order: include, the define forms, undef, ifdef, ifndef, if,
/// elif, endif, else.
#[verifier::opaque]
pub open spec fn spec_classify(s: Seq<u8>) -> DirectiveV {
    if sp_match_include(s) is Some {
        DirectiveV::Include(sp_match_include(s)->0)
    } else if sp_match_define(s) is Some {
        DirectiveV::Define((sp_match_define(s)->0).0, (sp_match_define(s)->0).1)
    } else if sp_match_one_ident(s, bytes_of_str("undef"@)) is Some {
        DirectiveV::Undef(sp_match_one_ident(s, bytes_of_str("undef"@))->0)
    } else if sp_match_one_ident(s, bytes_of_str("ifdef"@)) is Some {
        DirectiveV::Ifdef(sp_match_one_ident(s, bytes_of_str("ifdef"@))->0)
    } else if sp_match_one_ident(s, bytes_of_str("ifndef"@)) is Some {
        DirectiveV::Ifndef(sp_match_one_ident(s, bytes_of_str("ifndef"@))->0)
    } else if sp_match_expr(s, bytes_of_str("if"@)) is Some {
        DirectiveV::If(sp_match_expr(s, bytes_of_str("if"@))->0)
    } else if sp_match_expr(s, bytes_of_str("elif"@)) is Some {
        DirectiveV::Elif(sp_match_expr(s, bytes_of_str("elif"@))->0)
    } else if sp_match_bare(s, bytes_of_str("endif"@)) {
        DirectiveV::Endif
    } else if sp_match_bare(s, bytes_of_str("else"@)) {
        DirectiveV::Else
    } else {
        DirectiveV::Unrecognized
    }
}

fn after_kw_exec(line: &Vec<u8>, kw: &Vec<u8>) -> (r: Option<usize>)
    ensures
        match r {
            Option::Some(k) => after_kw(line@, kw@) == Option::Some(k as int) && k <= line@.len(),
            Option::None => after_kw(line@, kw@) is None,
        },
{
    let n = line.len();
    if n == 0 {
        return Option::None;
    }
    if !has_at(line, 1, kw) {
        return Option::None;
    }
    let base = 1 + kw.len();
    if base < n && is_ws_byte(line[base]) {
        Option::Some(skip_ws_exec(line, base))
    } else {
        Option::None
    }
}

fn m_include(line: &Vec<u8>) -> (r: Option<Vec<u8>>)
    ensures
        match r {
            Option::Some(p) => sp_match_include(line@) == Option::Some(p@),
            Option::None => sp_match_include(line@) is None,
        },
{
    proof {
        reveal_strlit("include");
    }
    let kw = str_to_bytes("include");
    match after_kw_exec(line, &kw) {
        Option::None => Option::None,
        Option::Some(k) => {
            let n = line.len();
            let e = rtrim_exec(line);
            if k < n && line[k] == 34 && e >= 1 && e - 1 > k && line[e - 1] == 34 {
                Option::Some(subrange_bytes(line, k + 1, e - 1))
            } else {
                Option::None
            }
        },
    }
}

fn m_define(line: &Vec<u8>) -> (r: Option<(Vec<u8>, Vec<u8>)>)
    ensures
        match r {
            Option::Some(p) => sp_match_define(line@) == Option::Some((p.0@, p.1@)),
            Option::None => sp_match_define(line@) is None,
        },
{
    proof {
        reveal_strlit("define");
    }
    let kw = str_to_bytes("define");
    match after_kw_exec(line, &kw) {
        Option::None => Option::None,
        Option::Some(k) => {
            let n = line.len();
            let e1 = ident_end_exec(line, k);
            if e1 <= k {
                return Option::None;
            }
            let name = subrange_bytes(line, k, e1);
            if all_ws_exec(line, e1) {
                let empty_val: Vec<u8> = Vec::new();
                proof {
                    assert(empty_val@ =~= Seq::<u8>::empty());
                }
                return Option::Some((name, empty_val));
            }
            if e1 < n && is_ws_byte(line[e1]) {
                let w = skip_ws_exec(line, e1);
                let e = rtrim_exec(line);
                if w < n && line[w] == 34 && e >= 1 && e - 1 > w && line[e - 1] == 34 {
                    return Option::Some((name, subrange_bytes(line, w + 1, e - 1)));
                }
                let v = nonws_end_exec(line, w);
                if v > w && all_ws_exec(line, v) {
                    return Option::Some((name, subrange_bytes(line, w, v)));
                }
                Option::None
            } else {
                Option::None
            }
        },
    }
}

fn m_one_ident(line: &Vec<u8>, kw: &Vec<u8>) -> (r: Option<Vec<u8>>)
    ensures
        match r {
            Option::Some(p) => sp_match_one_ident(line@, kw@) == Option::Some(p@),
            Option::None => sp_match_one_ident(line@, kw@) is None,
        },
{
    match after_kw_exec(line, kw) {
        Option::None => Option::None,
        Option::Some(k) => {
            let e1 = ident_end_exec(line, k);
            if e1 > k && all_ws_exec(line, e1) {
                Option::Some(subrange_bytes(line, k, e1))
            } else {
                Option::None
            }
        },
    }
}

fn m_expr(line: &Vec<u8>, kw: &Vec<u8>) -> (r: Option<Vec<u8>>)
    ensures
        match r {
            Option::Some(p) => sp_match_expr(line@, kw@) == Option::Some(p@),
            Option::None => sp_match_expr(line@, kw@) is None,
        },
{
    match after_kw_exec(line, kw) {
        Option::None => Option::None,
        Option::Some(k) => Option::Some(subrange_bytes(line, k, line.len())),
    }
}

fn m_bare(line: &Vec<u8>, kw: &Vec<u8>) -> (r: bool)
    ensures
        r == sp_match_bare(line@, kw@),
{
    let n = line.len();
    if n == 0 {
        return false;
    }
    if !has_at(line, 1, kw) {
        return false;
    }
    all_ws_exec(line, 1 + kw.len())
}

/// Classifies a sigil line against the directive set.
pub fn classify(line: &Vec<u8>) -> (d: Directive)
    ensures
        d@ == spec_classify(line@),
{
    proof {
        reveal(spec_classify);
    }
    if let Option::Some(p) = m_include(line) {
        return Directive::Include(p);
    }
    if let Option::Some((k, v)) = m_define(line) {
        return Directive::Define(k, v);
    }
    proof {
        reveal_strlit("undef");
        reveal_strlit("ifdef");
        reveal_strlit("ifndef");
        reveal_strlit("if");
        reveal_strlit("elif");
        reveal_strlit("endif");
        reveal_strlit("else");
    }
    let kw_undef = str_to_bytes("undef");
    if let Option::Some(nm) = m_one_ident(line, &kw_undef) {
        return Directive::Undef(nm);
    }
    let kw_ifdef = str_to_bytes("ifdef");
    if let Option::Some(nm) = m_one_ident(line, &kw_ifdef) {
        return Directive::Ifdef(nm);
    }
    let kw_ifndef = str_to_bytes("ifndef");
    if let Option::Some(nm) = m_one_ident(line, &kw_ifndef) {
        return Directive::Ifndef(nm);
    }
    let kw_if = str_to_bytes("if");
    if let Option::Some(ex) = m_expr(line, &kw_if) {
        return Directive::If(ex);
    }
    let kw_elif = str_to_bytes("elif");
    if let Option::Some(ex) = m_expr(line, &kw_elif) {
        return Directive::Elif(ex);
    }
    let kw_endif = str_to_bytes("endif");
    if m_bare(line, &kw_endif) {
        return Directive::Endif;
    }
    let kw_else = str_to_bytes("else");
    if m_bare(line, &kw_else) {
        return Directive::Else;
    }
    Directive::Unrecognized
}

/// The position of the first `#` in `s`, or `s.len()`.
pub open spec fn hash_pos(s: Seq<u8>) -> int
    decreases s.len(),
{
    if s.len() == 0 {
        0
    } else if s[0] == 35 {
        0
    } else {
        1 + hash_pos(s.drop_first())
    }
}

pub proof fn lemma_hash_pos_at(s: Seq<u8>, j: int)
    requires
        0 <= j <= s.len(),
        forall|k: int| 0 <= k < j ==> s[k] != 35,
        j < s.len() ==> s[j] == 35,
    ensures
        hash_pos(s) == j,
    decreases s.len(),
{
    if s.len() > 0 && s[0] != 35 {
        lemma_hash_pos_at(s.drop_first(), j - 1);
    }
}

pub proof fn lemma_hash_pos_bounds(s: Seq<u8>)
    ensures
        0 <= hash_pos(s) <= s.len(),
    decreases s.len(),
{
    if s.len() > 0 && s[0] != 35 {
        lemma_hash_pos_bounds(s.drop_first());
    }
}

/// Whether the line is entirely a comment: its first non-whitespace byte is
/// `#`.
pub open spec fn is_full_comment(s: Seq<u8>) -> bool {
    skip_ws(s, 0) < s.len() && s[skip_ws(s, 0)] == 35
}

/// A line with everything from its first `#` removed.
pub open spec fn strip_comment(s: Seq<u8>) -> Seq<u8> {
    s.subrange(0, hash_pos(s))
}

pub fn is_full_comment_exec(line: &Vec<u8>) -> (r: bool)
    ensures
        r == is_full_comment(line@),
{
    let j = skip_ws_exec(line, 0);
    j < line.len() && line[j] == 35
}

pub fn strip_comment_exec(line: &Vec<u8>) -> (r: Vec<u8>)
    ensures
        r@ == strip_comment(line@),
{
    let n = line.len();
    let mut j: usize = 0;
    while j < n && line[j] != 35
        invariant
            j <= n == line@.len(),
            forall|k: int| 0 <= k < j ==> line@[k] != 35,
        decreases n - j,
    {
        j += 1;
    }
    proof {
        lemma_hash_pos_at(line@, j as int);
    }
    subrange_bytes(line, 0, j)
}

} // verus!
