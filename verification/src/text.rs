//! Character-level text helpers shared by the other modules.

use vstd::prelude::*;

verus! {

/// Appends one character to a `String` (`String::push`).
/// Trusted: the result is the old text followed by `c`.
#[verifier::external_body]
pub(crate) fn push_char(s: &mut String, c: char)
    ensures
        final(s)@ == old(s)@.push(c),
{
    s.push(c);
}

/// Builds a `String` holding exactly the given characters.
pub fn string_from_chars(cs: &[char]) -> (r: String)
    ensures
        r@ == cs@,
{
    let mut r = String::new();
    let mut i: usize = 0;
    while i < cs.len()
        invariant
            i <= cs@.len(),
            r@ == cs@.subrange(0, i as int),
        decreases cs@.len() - i,
    {
        push_char(&mut r, cs[i]);
        i = i + 1;
    }
    r
}

/// The characters of a string slice, in order.
pub fn chars_of(s: &str) -> (r: Vec<char>)
    ensures
        r@ == s@,
{
    let mut r: Vec<char> = Vec::new();
    for c in it: s.chars()
        invariant
            r@ == it.seq().subrange(0, it.index() as int),
    {
        r.push(c);
    }
    r
}


/// The ASCII digit character for `d` (`0 <= d <= 9`).
pub open spec fn digit_char(d: int) -> char {
    (48 + d) as char
}

/// Decimal digits of `n`, most significant first, without leading zeros.
pub open spec fn decimal_digits(n: nat) -> Seq<char>
    decreases n,
{
    if n < 10 {
        seq![digit_char(n as int)]
    } else {
        decimal_digits(n / 10).push(digit_char((n % 10) as int))
    }
}

/// `s` left-padded with `'0'` up to `width` characters.
pub open spec fn zero_padded(s: Seq<char>, width: nat) -> Seq<char> {
    if s.len() >= width {
        s
    } else {
        Seq::new((width - s.len()) as nat, |i: int| '0') + s
    }
}

/// Appends the decimal digits of `n` to `out`.
pub fn push_decimal(out: &mut Vec<char>, n: u64)
    ensures
        final(out)@ == old(out)@ + decimal_digits(n as nat),
    decreases n,
{
    if n >= 10 {
        push_decimal(out, n / 10);
    }
    let d: u8 = (n % 10) as u8;
    let c: char = (48u8 + d) as char;
    out.push(c);
    proof {
        assert(c == digit_char((n % 10) as int));
        if n < 10 {
            assert(decimal_digits(n as nat) == seq![digit_char(n as int)]);
        }
    }
}

/// Appends the decimal digits of `n`, left-padded with zeros to `width`.
pub fn push_zero_padded(out: &mut Vec<char>, n: u64, width: usize)
    ensures
        final(out)@ == old(out)@ + zero_padded(decimal_digits(n as nat), width as nat),
{
    let mut digits: Vec<char> = Vec::new();
    push_decimal(&mut digits, n);
    assert(digits@ == decimal_digits(n as nat));
    let mut pad: usize = 0;
    if digits.len() < width {
        pad = width - digits.len();
    }
    let ghost start = out@;
    let mut i: usize = 0;
    while i < pad
        invariant
            i <= pad,
            out@ == start + Seq::new(i as nat, |k: int| '0'),
        decreases pad - i,
    {
        out.push('0');
        i = i + 1;
        assert(out@ =~= start + Seq::new(i as nat, |k: int| '0'));
    }
    let ghost mid = out@;
    let mut j: usize = 0;
    while j < digits.len()
        invariant
            j <= digits@.len(),
            out@ == mid + digits@.subrange(0, j as int),
        decreases digits@.len() - j,
    {
        out.push(digits[j]);
        j = j + 1;
        assert(out@ =~= mid + digits@.subrange(0, j as int));
    }
    assert(digits@.subrange(0, digits@.len() as int) =~= digits@);
    assert(out@ =~= old(out)@ + zero_padded(decimal_digits(n as nat), width as nat));
}


/// Whether two strings hold the same characters.
pub fn str_eq(a: &str, b: &str) -> (r: bool)
    ensures
        r == (a@ == b@),
{
    let x = chars_of(a);
    let y = chars_of(b);
    if x.len() != y.len() {
        return false;
    }
    let mut i: usize = 0;
    while i < x.len()
        invariant
            x@ == a@,
            y@ == b@,
            x@.len() == y@.len(),
            i <= x@.len(),
            forall|k: int| 0 <= k < i ==> x@[k] == y@[k],
        decreases x@.len() - i,
    {
        if x[i] != y[i] {
            return false;
        }
        i = i + 1;
    }
    assert(x@ =~= y@);
    true
}

/// `s` with `p` as its first characters.
pub open spec fn has_prefix(s: Seq<char>, p: Seq<char>) -> bool {
    p.len() <= s.len() && s.subrange(0, p.len() as int) == p
}

/// Whether `cs[at..]` begins with `p`.
fn matches_at(cs: &Vec<char>, at: usize, p: &Vec<char>) -> (r: bool)
    requires
        at <= cs@.len(),
    ensures
        r == has_prefix(cs@.subrange(at as int, cs@.len() as int), p@),
{
    let ghost rest = cs@.subrange(at as int, cs@.len() as int);
    if p.len() > cs.len() - at {
        return false;
    }
    let mut i: usize = 0;
    while i < p.len()
        invariant
            at + p@.len() <= cs@.len(),
            cs@.len() <= usize::MAX,
            rest == cs@.subrange(at as int, cs@.len() as int),
            i <= p@.len(),
            forall|k: int| 0 <= k < i ==> cs@[at + k] == p@[k],
        decreases p@.len() - i,
    {
        if cs[at + i] != p[i] {
            assert(rest.subrange(0, p@.len() as int)[i as int] != p@[i as int]);
            return false;
        }
        i = i + 1;
    }
    assert(rest.subrange(0, p@.len() as int) =~= p@);
    true
}

/// The rest of `s` after the prefix `p`, when `s` begins with `p`
/// (`str::strip_prefix`).
pub fn strip_prefix(s: &str, p: &str) -> (r: Option<String>)
    ensures
        r is Some <==> has_prefix(s@, p@),
        r matches Some(rest) ==> rest@ == s@.subrange(p@.len() as int, s@.len() as int),
{
    let cs = chars_of(s);
    let ps = chars_of(p);
    assert(cs@.subrange(0, cs@.len() as int) =~= cs@);
    if matches_at(&cs, 0, &ps) {
        let rest = string_from_chars(slice_from(&cs, ps.len()).as_slice());
        Some(rest)
    } else {
        None
    }
}

/// The characters of `cs` from index `from` on.
fn slice_from(cs: &Vec<char>, from: usize) -> (r: Vec<char>)
    requires
        from <= cs@.len(),
    ensures
        r@ == cs@.subrange(from as int, cs@.len() as int),
{
    let mut r: Vec<char> = Vec::new();
    let mut i: usize = from;
    while i < cs.len()
        invariant
            from <= i <= cs@.len(),
            r@ == cs@.subrange(from as int, i as int),
        decreases cs@.len() - i,
    {
        r.push(cs[i]);
        i = i + 1;
        assert(r@ =~= cs@.subrange(from as int, i as int));
    }
    r
}

/// Appends the characters of `s` to `out`.
pub fn push_str(out: &mut Vec<char>, s: &str)
    ensures
        final(out)@ == old(out)@ + s@,
{
    let piece = chars_of(s);
    let mut j: usize = 0;
    while j < piece.len()
        invariant
            piece@ == s@,
            j <= piece@.len(),
            out@ == old(out)@ + piece@.subrange(0, j as int),
        decreases piece@.len() - j,
    {
        out.push(piece[j]);
        j = j + 1;
        assert(out@ =~= old(out)@ + piece@.subrange(0, j as int));
    }
    assert(piece@.subrange(0, piece@.len() as int) =~= piece@);
}

/// `a` followed by `b`.
pub fn concat(a: &str, b: &str) -> (r: String)
    ensures
        r@ == a@ + b@,
{
    let mut out: Vec<char> = Vec::new();
    push_str(&mut out, a);
    push_str(&mut out, b);
    assert(out@ =~= a@ + b@);
    string_from_chars(out.as_slice())
}

/// `s` with every match of `pat`, found left to right without overlap,
/// replaced by `rep` (`str::replace` for a non-empty pattern).
pub open spec fn replace_all(s: Seq<char>, pat: Seq<char>, rep: Seq<char>) -> Seq<char>
    decreases s.len(),
{
    if pat.len() == 0 || s.len() == 0 {
        s
    } else if has_prefix(s, pat) {
        rep + replace_all(s.subrange(pat.len() as int, s.len() as int), pat, rep)
    } else {
        seq![s[0]] + replace_all(s.drop_first(), pat, rep)
    }
}

/// The pieces joined end to end with `sep` between neighbours.
pub open spec fn join_with(pieces: Seq<Seq<char>>, sep: Seq<char>) -> Seq<char>
    decreases pieces.len(),
{
    if pieces.len() == 0 {
        Seq::empty()
    } else if pieces.len() == 1 {
        pieces[0]
    } else {
        pieces[0] + sep + join_with(pieces.drop_first(), sep)
    }
}

/// No match of `pat` starts inside any piece, reading on through the rest
/// of the text (the later pieces joined by `pat`).
pub open spec fn no_match_starts_in_pieces(pieces: Seq<Seq<char>>, pat: Seq<char>) -> bool {
    forall|i: int, j: int|
        0 <= i < pieces.len() && 0 <= j < pieces[i].len() ==> !has_prefix(
            #[trigger] join_with(pieces.subrange(i, pieces.len() as int), pat).subrange(j, join_with(pieces.subrange(i, pieces.len() as int), pat).len() as int),
            pat,
        )
}

/// Growing the first piece grows the joined text at its front.
proof fn lemma_join_with_grow_first(pieces: Seq<Seq<char>>, x: Seq<char>, sep: Seq<char>)
    requires
        pieces.len() >= 1,
    ensures
        join_with(pieces.update(0, x + pieces[0]), sep) == x + join_with(pieces, sep),
{
    let q = pieces.update(0, x + pieces[0]);
    if pieces.len() > 1 {
        assert(q.drop_first() =~= pieces.drop_first());
        assert(x + pieces[0] + sep + join_with(pieces.drop_first(), sep)
            =~= x + (pieces[0] + sep + join_with(pieces.drop_first(), sep)));
    }
}

/// What `replace_all` does, without its recursion: the text splits into
/// pieces separated by matches of `pat`, the result joins the same pieces
/// with `rep` instead, and no match of `pat` starts inside a piece, so every
/// match, found left to right without overlap, is replaced and none is left
/// in the copied text.
pub proof fn lemma_replace_all_pieces(s: Seq<char>, pat: Seq<char>, rep: Seq<char>) -> (pieces: Seq<Seq<char>>)
    requires
        pat.len() > 0,
    ensures
        pieces.len() >= 1,
        s == join_with(pieces, pat),
        replace_all(s, pat, rep) == join_with(pieces, rep),
        no_match_starts_in_pieces(pieces, pat),
    decreases s.len(),
{
    if s.len() == 0 {
        let pieces = seq![s];
        assert(pieces.subrange(0, 1) =~= pieces);
        pieces
    } else if has_prefix(s, pat) {
        let t = s.subrange(pat.len() as int, s.len() as int);
        let pt = lemma_replace_all_pieces(t, pat, rep);
        let pieces = seq![Seq::<char>::empty()] + pt;
        assert(pieces.drop_first() =~= pt);
        assert(s =~= Seq::<char>::empty() + pat + t);
        assert(join_with(pieces, rep) =~= Seq::<char>::empty() + rep + join_with(pt, rep));
        assert forall|i: int, j: int| 0 <= i < pieces.len() && 0 <= j < pieces[i].len() implies !has_prefix(
            #[trigger] join_with(pieces.subrange(i, pieces.len() as int), pat).subrange(j, join_with(pieces.subrange(i, pieces.len() as int), pat).len() as int),
            pat,
        ) by {
            assert(i >= 1);
            assert(pieces.subrange(i, pieces.len() as int) =~= pt.subrange(i - 1, pt.len() as int));
            assert(pieces[i] == pt[i - 1]);
        }
        pieces
    } else {
        let t = s.drop_first();
        let pt = lemma_replace_all_pieces(t, pat, rep);
        let x = seq![s[0]];
        let pieces = pt.update(0, x + pt[0]);
        lemma_join_with_grow_first(pt, x, pat);
        lemma_join_with_grow_first(pt, x, rep);
        assert(s =~= x + t);
        assert(pieces.subrange(0, pieces.len() as int) =~= pieces);
        assert(pt.subrange(0, pt.len() as int) =~= pt);
        assert forall|i: int, j: int| 0 <= i < pieces.len() && 0 <= j < pieces[i].len() implies !has_prefix(
            #[trigger] join_with(pieces.subrange(i, pieces.len() as int), pat).subrange(j, join_with(pieces.subrange(i, pieces.len() as int), pat).len() as int),
            pat,
        ) by {
            if i == 0 {
                if j == 0 {
                    assert(s.subrange(0, s.len() as int) =~= s);
                } else {
                    assert(s.subrange(j, s.len() as int) =~= t.subrange(j - 1, t.len() as int));
                    assert(pieces[0][j] == pt[0][j - 1]);
                    assert(join_with(pt.subrange(0, pt.len() as int), pat).subrange(j - 1, join_with(pt.subrange(0, pt.len() as int), pat).len() as int)
                        == t.subrange(j - 1, t.len() as int));
                }
            } else {
                assert(pieces.subrange(i, pieces.len() as int) =~= pt.subrange(i, pt.len() as int));
                assert(pieces[i] == pt[i]);
            }
        }
        pieces
    }
}

/// Replaces every match of `pat` in `s` by `rep`, scanning left to right
/// (`str::replace`).
pub fn replace(s: &str, pat: &str, rep: &str) -> (r: String)
    requires
        pat@.len() > 0,
    ensures
        r@ == replace_all(s@, pat@, rep@),
{
    let cs = chars_of(s);
    let ps = chars_of(pat);
    let rs = chars_of(rep);
    let mut out: Vec<char> = Vec::new();
    let mut i: usize = 0;
    assert(cs@.subrange(0, cs@.len() as int) =~= cs@);
    assert(out@ + replace_all(cs@, pat@, rep@) =~= replace_all(cs@, pat@, rep@));
    while i < cs.len()
        invariant
            cs@ == s@,
            ps@ == pat@,
            rs@ == rep@,
            ps@.len() > 0,
            i <= cs@.len(),
            replace_all(s@, pat@, rep@) == out@ + replace_all(cs@.subrange(i as int, cs@.len() as int), pat@, rep@),
        decreases cs@.len() - i,
    {
        let ghost rest = cs@.subrange(i as int, cs@.len() as int);
        if matches_at(&cs, i, &ps) {
            let ghost before = out@;
            let mut j: usize = 0;
            while j < rs.len()
                invariant
                    j <= rs@.len(),
                    out@ == before + rs@.subrange(0, j as int),
                decreases rs@.len() - j,
            {
                out.push(rs[j]);
                j = j + 1;
                assert(out@ =~= before + rs@.subrange(0, j as int));
            }
            assert(rs@.subrange(0, rs@.len() as int) =~= rs@);
            assert(rest.subrange(pat@.len() as int, rest.len() as int)
                =~= cs@.subrange(i + ps@.len(), cs@.len() as int));
            i = i + ps.len();
        } else {
            let ghost before = out@;
            out.push(cs[i]);
            assert(rest.drop_first() =~= cs@.subrange(i + 1, cs@.len() as int));
            assert(out@ =~= before + seq![rest[0]]);
            i = i + 1;
        }
    }
    assert(cs@.subrange(i as int, cs@.len() as int) =~= Seq::<char>::empty());
    assert(out@ + Seq::<char>::empty() =~= out@);
    string_from_chars(out.as_slice())
}

/// The characters after the last `sep` in `s`, or all of `s` when it holds
/// none (the last piece of `str::split`).
pub open spec fn last_piece(s: Seq<char>, sep: char) -> Seq<char>
    decreases s.len(),
{
    if s.len() == 0 {
        s
    } else if s.last() == sep {
        Seq::empty()
    } else {
        last_piece(s.drop_last(), sep).push(s.last())
    }
}

/// The characters after the last `sep` (`s.split(sep).next_back()`).
pub fn last_piece_of(s: &[char], sep: char) -> (r: Vec<char>)
    ensures
        r@ == last_piece(s@, sep),
{
    let mut start: usize = s.len();
    assert(s@.subrange(0, s@.len() as int) =~= s@);
    assert(last_piece(s@, sep) + s@.subrange(s@.len() as int, s@.len() as int) =~= last_piece(s@, sep));
    while start > 0 && s[start - 1] != sep
        invariant
            start <= s@.len(),
            last_piece(s@, sep) == last_piece(s@.subrange(0, start as int), sep)
                + s@.subrange(start as int, s@.len() as int),
        decreases start,
    {
        let ghost pre = s@.subrange(0, start as int);
        assert(pre.drop_last() =~= s@.subrange(0, start - 1));
        assert(s@.subrange(start - 1, s@.len() as int) =~= seq![pre.last()] + s@.subrange(start as int, s@.len() as int));
        start = start - 1;
    }
    let mut r: Vec<char> = Vec::new();
    let mut i: usize = start;
    while i < s.len()
        invariant
            start <= i <= s@.len(),
            r@ == s@.subrange(start as int, i as int),
        decreases s@.len() - i,
    {
        r.push(s[i]);
        i = i + 1;
        assert(r@ =~= s@.subrange(start as int, i as int));
    }
    let ghost pre = s@.subrange(0, start as int);
    assert(last_piece(pre, sep) =~= Seq::<char>::empty());
    assert(last_piece(s@, sep) =~= r@);
    r
}


/// An ASCII decimal digit.
pub open spec fn is_digit(c: char) -> bool {
    '0' <= c <= '9'
}

/// The value of the decimal digit string `s` (most significant first).
pub open spec fn digits_value(s: Seq<char>) -> int
    decreases s.len(),
{
    if s.len() == 0 {
        0
    } else {
        digits_value(s.drop_last()) * 10 + (s.last() as int - 48)
    }
}

/// Every character of `s` is an ASCII digit.
pub open spec fn all_digits(s: Seq<char>) -> bool {
    forall|i: int| 0 <= i < s.len() ==> #[trigger] is_digit(s[i])
}

/// `s` without a leading `+` or `-`.
pub open spec fn unsigned_part(s: Seq<char>) -> Seq<char> {
    if s.len() > 0 && (s[0] == '-' || s[0] == '+') { s.drop_first() } else { s }
}

/// How `str::parse::<i64>` reads `s`: an optional `+` or `-`, then one or
/// more ASCII digits, of a value within `i64`.
pub open spec fn parsed_i64(s: Seq<char>) -> Option<i64> {
    let body = unsigned_part(s);
    if body.len() == 0 || !all_digits(body) {
        None
    } else {
        let v = if s[0] == '-' { -digits_value(body) } else { digits_value(body) };
        if i64::MIN <= v <= i64::MAX { Some(v as i64) } else { None }
    }
}

/// Parses a decimal `i64` (`str::parse::<i64>`).
pub fn parse_i64(s: &[char]) -> (r: Option<i64>)
    ensures
        r == parsed_i64(s@),
{
    let negative = s.len() > 0 && s[0] == '-';
    let start: usize = if s.len() > 0 && (s[0] == '-' || s[0] == '+') { 1 } else { 0 };
    let ghost body = unsigned_part(s@);
    assert(body =~= s@.subrange(start as int, s@.len() as int));
    if start == s.len() {
        return None;
    }
    // Saturates at one past the magnitude of `i64::MIN`.
    let cap: u128 = 0x8000_0000_0000_0001;
    let mut acc: u128 = 0;
    let mut i: usize = start;
    while i < s.len()
        invariant
            start <= i <= s@.len(),
            body == s@.subrange(start as int, s@.len() as int),
            body == unsigned_part(s@),
            cap == 0x8000_0000_0000_0001,
            forall|k: int| 0 <= k < i - start ==> #[trigger] is_digit(body[k]),
            acc as int == (if digits_value(body.subrange(0, i - start)) < cap {
                digits_value(body.subrange(0, i - start))
            } else {
                cap as int
            }),
        decreases s@.len() - i,
    {
        let c = s[i];
        if !('0' <= c && c <= '9') {
            assert(body[i - start] == c);
            assert(!is_digit(body[i - start]));
            assert(body.len() > 0);
            return None;
        }
        let d: u128 = (c as u32 - 48) as u128;
        let ghost prev = body.subrange(0, i - start);
        let ghost next = body.subrange(0, i - start + 1);
        assert(next.drop_last() =~= prev);
        assert(digits_value(next) == digits_value(prev) * 10 + d);
        proof {
            lemma_digits_value_nonneg(prev);
        }
        let grown: u128 = acc * 10 + d;
        acc = if grown < cap { grown } else { cap };
        i = i + 1;
    }
    assert(body.subrange(0, body.len() as int) =~= body);
    if negative {
        if acc <= 0x8000_0000_0000_0000 {
            let v: i128 = 0 - (acc as i128);
            Some(v as i64)
        } else {
            None
        }
    } else {
        if acc <= 0x7fff_ffff_ffff_ffff {
            Some(acc as i64)
        } else {
            None
        }
    }
}

/// Decimal digit strings have non-negative values.
proof fn lemma_digits_value_nonneg(s: Seq<char>)
    requires
        forall|i: int| 0 <= i < s.len() ==> #[trigger] is_digit(s[i]),
    ensures
        digits_value(s) >= 0,
    decreases s.len(),
{
    if s.len() > 0 {
        assert(is_digit(s[s.len() - 1]));
        lemma_digits_value_nonneg(s.drop_last());
    }
}

} // verus!
