use vstd::prelude::*;

verus! {

/// Whitespace bytes: space, tab, line feed, vertical tab, form feed,
/// carriage return.
pub open spec fn is_ws(b: u8) -> bool {
    b == 32 || b == 9 || b == 10 || b == 11 || b == 12 || b == 13
}

/// Identifier bytes: ASCII digits, upper- and lower-case letters, underscore.
pub open spec fn is_ident_byte(b: u8) -> bool {
    (48 <= b && b <= 57) || (65 <= b && b <= 90) || (97 <= b && b <= 122) || b == 95
}

pub fn is_ws_byte(b: u8) -> (r: bool)
    ensures
        r == is_ws(b),
{
    b == 32 || b == 9 || b == 10 || b == 11 || b == 12 || b == 13
}

pub fn is_ident_b(b: u8) -> (r: bool)
    ensures
        r == is_ident_byte(b),
{
    (48 <= b && b <= 57) || (65 <= b && b <= 90) || (97 <= b && b <= 122) || b == 95
}

/// The bytes of an ASCII character sequence.
pub open spec fn bytes_of_str(s: Seq<char>) -> Seq<u8> {
    Seq::new(s.len(), |i: int| s[i] as u8)
}

/// Turns an ASCII string literal into its byte vector.
pub fn str_to_bytes(s: &str) -> (r: Vec<u8>)
    requires
        s.is_ascii(),
    ensures
        r@ == bytes_of_str(s@),
{
    proof {
        vstd::string::is_ascii_spec_bytes(s);
    }
    let r = s.as_bytes_vec();
    proof {
        assert(r@ =~= bytes_of_str(s@));
    }
    r
}

pub fn bytes_eq(a: &Vec<u8>, b: &Vec<u8>) -> (r: bool)
    ensures
        r == (a@ == b@),
{
    if a.len() != b.len() {
        return false;
    }
    let n = a.len();
    let mut i: usize = 0;
    while i < n
        invariant
            n == a@.len() == b@.len(),
            i <= n,
            forall|k: int| 0 <= k < i ==> a@[k] == b@[k],
        decreases n - i,
    {
        if a[i] != b[i] {
            return false;
        }
        i += 1;
    }
    proof {
        assert(a@ =~= b@);
    }
    true
}

pub fn clone_bytes(v: &Vec<u8>) -> (r: Vec<u8>)
    ensures
        r@ == v@,
{
    let mut r: Vec<u8> = Vec::new();
    let mut i: usize = 0;
    while i < v.len()
        invariant
            i <= v@.len(),
            r@ == v@.subrange(0, i as int),
        decreases v@.len() - i,
    {
        r.push(v[i]);
        proof {
            assert(r@ =~= v@.subrange(0, i + 1));
        }
        i += 1;
    }
    proof {
        assert(r@ =~= v@);
    }
    r
}

/// Appends all of `src` to `dst`.
pub fn push_bytes(dst: &mut Vec<u8>, src: &Vec<u8>)
    ensures
        final(dst)@ == old(dst)@ + src@,
{
    let mut i: usize = 0;
    while i < src.len()
        invariant
            i <= src@.len(),
            dst@ == old(dst)@ + src@.subrange(0, i as int),
        decreases src@.len() - i,
    {
        dst.push(src[i]);
        proof {
            assert(dst@ =~= old(dst)@ + src@.subrange(0, i + 1));
        }
        i += 1;
    }
    proof {
        assert(dst@ =~= old(dst)@ + src@);
    }
}

/// Appends an ASCII string literal to `dst`.
pub fn push_str_bytes(dst: &mut Vec<u8>, s: &str)
    requires
        s.is_ascii(),
    ensures
        final(dst)@ == old(dst)@ + bytes_of_str(s@),
{
    let b = str_to_bytes(s);
    push_bytes(dst, &b);
}

pub fn subrange_bytes(v: &Vec<u8>, a: usize, b: usize) -> (r: Vec<u8>)
    requires
        a <= b <= v@.len(),
    ensures
        r@ == v@.subrange(a as int, b as int),
{
    let mut r: Vec<u8> = Vec::new();
    let mut i: usize = a;
    while i < b
        invariant
            a <= i <= b <= v@.len(),
            r@ == v@.subrange(a as int, i as int),
        decreases b - i,
    {
        r.push(v[i]);
        proof {
            assert(r@ =~= v@.subrange(a as int, i + 1));
        }
        i += 1;
    }
    r
}

/// Decimal digits of a number, most significant first.
pub open spec fn dec_digits(n: nat) -> Seq<u8>
    decreases n,
{
    if n < 10 {
        seq![(48 + n) as u8]
    } else {
        dec_digits(n / 10).push((48 + n % 10) as u8)
    }
}

pub fn usize_to_dec(n: usize) -> (r: Vec<u8>)
    ensures
        r@ == dec_digits(n as nat),
    decreases n,
{
    if n < 10 {
        let mut r: Vec<u8> = Vec::new();
        r.push(48 + n as u8);
        proof {
            assert(r@ =~= dec_digits(n as nat));
        }
        r
    } else {
        let mut r = usize_to_dec(n / 10);
        r.push(48 + (n % 10) as u8);
        r
    }
}

/// How many newline bytes a buffer holds.
pub open spec fn count_nl(s: Seq<u8>) -> int
    decreases s.len(),
{
    if s.len() == 0 {
        0
    } else {
        count_nl(s.drop_last()) + if s.last() == 10 { 1int } else { 0int }
    }
}

pub proof fn lemma_count_nl_bounds(s: Seq<u8>)
    ensures
        0 <= count_nl(s) <= s.len(),
        s.len() > 0 && s.last() != 10 ==> count_nl(s) <= s.len() - 1,
    decreases s.len(),
{
    if s.len() > 0 {
        lemma_count_nl_bounds(s.drop_last());
    }
}

/// The number of lines a text buffer holds: newline-terminated segments, plus
/// one for a trailing segment without a newline.
pub open spec fn out_line_count(s: Seq<u8>) -> int {
    if s.len() == 0 {
        0
    } else if s.last() == 10 {
        count_nl(s)
    } else {
        count_nl(s) + 1
    }
}

pub fn count_output_lines(v: &Vec<u8>) -> (r: usize)
    ensures
        r == out_line_count(v@),
{
    let n = v.len();
    let mut cnt: usize = 0;
    let mut i: usize = 0;
    while i < n
        invariant
            n == v@.len(),
            i <= n,
            cnt == count_nl(v@.subrange(0, i as int)),
            cnt <= i,
        decreases n - i,
    {
        proof {
            assert(v@.subrange(0, i + 1).drop_last() =~= v@.subrange(0, i as int));
        }
        if v[i] == 10 {
            cnt += 1;
        }
        i += 1;
    }
    proof {
        assert(v@.subrange(0, n as int) =~= v@);
        lemma_count_nl_bounds(v@);
    }
    if n == 0 {
        0
    } else if v[n - 1] == 10 {
        cnt
    } else {
        cnt + 1
    }
}

/// The position of the first newline in `s`, or `s.len()` if there is none.
pub open spec fn nl_pos(s: Seq<u8>) -> int
    decreases s.len(),
{
    if s.len() == 0 {
        0
    } else if s[0] == 10 {
        0
    } else {
        1 + nl_pos(s.drop_first())
    }
}

pub proof fn lemma_nl_pos(s: Seq<u8>)
    ensures
        0 <= nl_pos(s) <= s.len(),
        nl_pos(s) < s.len() ==> s[nl_pos(s)] == 10,
        forall|k: int| 0 <= k < nl_pos(s) ==> s[k] != 10,
    decreases s.len(),
{
    if s.len() > 0 && s[0] != 10 {
        lemma_nl_pos(s.drop_first());
        assert forall|k: int| 0 <= k < nl_pos(s) implies s[k] != 10 by {
            if k > 0 {
                assert(s.drop_first()[k - 1] != 10);
            }
        }
    }
}

pub proof fn lemma_nl_pos_at(s: Seq<u8>, j: int)
    requires
        0 <= j <= s.len(),
        forall|k: int| 0 <= k < j ==> s[k] != 10,
        j < s.len() ==> s[j] == 10,
    ensures
        nl_pos(s) == j,
    decreases s.len(),
{
    if s.len() > 0 && s[0] != 10 {
        lemma_nl_pos_at(s.drop_first(), j - 1);
    }
}

/// A line with a trailing carriage return removed.
pub open spec fn strip_cr(l: Seq<u8>) -> Seq<u8> {
    if l.len() > 0 && l.last() == 13 {
        l.drop_last()
    } else {
        l
    }
}

/// How a text buffer splits into lines: segments between newlines, each
/// newline-terminated segment with a trailing carriage return removed, and a
/// final segment without a newline kept as it stands.
pub open spec fn spec_split_lines(s: Seq<u8>) -> Seq<Seq<u8>>
    decreases s.len(),
    via spec_split_lines_decreases
{
    if s.len() == 0 {
        Seq::empty()
    } else {
        let p = nl_pos(s);
        if p == s.len() {
            seq![s]
        } else {
            seq![strip_cr(s.subrange(0, p))] + spec_split_lines(
                s.subrange(p + 1, s.len() as int),
            )
        }
    }
}

#[via_fn]
proof fn spec_split_lines_decreases(s: Seq<u8>) {
    lemma_nl_pos(s);
}

/// The views of a sequence of byte vectors.
pub open spec fn seq_bytes_view(s: Seq<Vec<u8>>) -> Seq<Seq<u8>> {
    Seq::new(s.len(), |i: int| s[i]@)
}

/// The position of the first newline at or after `from`, or `v.len()`.
fn find_nl(v: &Vec<u8>, from: usize) -> (r: usize)
    requires
        from <= v@.len(),
    ensures
        from <= r <= v@.len(),
        r < v@.len() ==> v@[r as int] == 10,
        forall|k: int| from <= k < r ==> v@[k] != 10,
{
    let n = v.len();
    let mut i = from;
    while i < n
        invariant
            from <= i <= n == v@.len(),
            forall|k: int| from <= k < i ==> v@[k] != 10,
        decreases n - i,
    {
        if v[i] == 10 {
            return i;
        }
        i += 1;
    }
    i
}

/// Splits a text buffer into its lines.
pub fn split_lines(content: &Vec<u8>) -> (r: Vec<Vec<u8>>)
    ensures
        seq_bytes_view(r@) == spec_split_lines(content@),
{
    let n = content.len();
    let mut r: Vec<Vec<u8>> = Vec::new();
    let mut pos: usize = 0;
    proof {
        assert(content@.subrange(0, n as int) =~= content@);
        assert(seq_bytes_view(r@) =~= Seq::<Seq<u8>>::empty());
        assert(seq_bytes_view(r@) + spec_split_lines(content@) =~= spec_split_lines(content@));
    }
    while pos < n
        invariant
            pos <= n == content@.len(),
            seq_bytes_view(r@) + spec_split_lines(content@.subrange(pos as int, n as int))
                =~= spec_split_lines(content@),
        decreases n - pos,
    {
        let ghost rest = content@.subrange(pos as int, n as int);
        let j = find_nl(content, pos);
        proof {
            assert forall|k: int| 0 <= k < j - pos implies rest[k] != 10 by {
                assert(content@[pos + k] != 10);
            }
            lemma_nl_pos_at(rest, j - pos);
        }
        if j < n {
            let mut line = subrange_bytes(content, pos, j);
            if line.len() > 0 && line[line.len() - 1] == 13 {
                line.pop();
            }
            proof {
                assert(rest.subrange(0, j - pos) =~= content@.subrange(pos as int, j as int));
                assert(line@ == strip_cr(rest.subrange(0, j - pos)));
                assert(rest.subrange(j - pos + 1, rest.len() as int) =~= content@.subrange(
                    j + 1,
                    n as int,
                ));
            }
            r.push(line);
            proof {
                assert(seq_bytes_view(r@) =~= seq_bytes_view(r@.drop_last()).push(line@));
            }
            pos = j + 1;
        } else {
            let line = subrange_bytes(content, pos, n);
            proof {
                assert(rest =~= content@.subrange(pos as int, n as int));
                assert(spec_split_lines(rest) == seq![rest]);
            }
            r.push(line);
            proof {
                assert(seq_bytes_view(r@) =~= seq_bytes_view(r@.drop_last()).push(line@));
                assert(content@.subrange(n as int, n as int) =~= Seq::<u8>::empty());
            }
            pos = n;
        }
    }
    proof {
        assert(content@.subrange(n as int, n as int) =~= Seq::<u8>::empty());
        assert(seq_bytes_view(r@) =~= spec_split_lines(content@));
    }
    r
}

} // verus!

verus! {

/// No newline byte anywhere in `s`.
pub open spec fn nl_free(s: Seq<u8>) -> bool {
    forall|k: int| 0 <= k < s.len() ==> s[k] != 10
}

pub proof fn lemma_count_nl_concat(a: Seq<u8>, b: Seq<u8>)
    ensures
        count_nl(a + b) == count_nl(a) + count_nl(b),
    decreases b.len(),
{
    if b.len() == 0 {
        assert(a + b =~= a);
    } else {
        assert((a + b).drop_last() =~= a + b.drop_last());
        lemma_count_nl_concat(a, b.drop_last());
    }
}

pub proof fn lemma_count_nl_single(b: u8)
    ensures
        count_nl(seq![b]) == if b == 10 {
            1int
        } else {
            0int
        },
{
    assert(count_nl(Seq::<u8>::empty()) == 0);
    assert(seq![b].drop_last() =~= Seq::<u8>::empty());
    assert(seq![b].last() == b);
}

pub proof fn lemma_count_nl_free(s: Seq<u8>)
    requires
        nl_free(s),
    ensures
        count_nl(s) == 0,
    decreases s.len(),
{
    if s.len() > 0 {
        lemma_count_nl_free(s.drop_last());
    }
}

pub proof fn lemma_dec_digits_nl_free(n: nat)
    ensures
        nl_free(dec_digits(n)),
    decreases n,
{
    if n >= 10 {
        lemma_dec_digits_nl_free(n / 10);
    }
}

} // verus!
