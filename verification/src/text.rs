//! Character and string helpers shared by the compiler stages.
use vstd::prelude::*;

verus! {

/// `String::push` appends `ch` at the end of the string: the contract says
/// that the new contents are the old ones followed by `ch`.
pub assume_specification[ String::push ](s: &mut String, ch: char)
    ensures
        final(s)@ == old(s)@.push(ch),
;

/// Builds a `String` whose characters are exactly those of `cs`.
pub(crate) fn string_from_chars(cs: &Vec<char>) -> (r: String)
    ensures
        r@ == cs@,
{
    let mut r = String::new();
    let mut i: usize = 0;
    while i < cs.len()
        invariant
            i <= cs.len(),
            r@ == cs@.subrange(0, i as int),
        decreases cs.len() - i,
    {
        r.push(cs[i]);
        i += 1;
        assert(r@ =~= cs@.subrange(0, i as int));
    }
    assert(cs@.subrange(0, cs.len() as int) =~= cs@);
    r
}

/// The characters of a string slice, in order.
pub(crate) fn chars_of(s: &str) -> (v: Vec<char>)
    ensures
        v@ == s@,
{
    let mut v: Vec<char> = Vec::new();
    for c in it: s.chars()
        invariant
            v@ == it.seq().subrange(0, it.index() as int),
    {
        v.push(c);
    }
    v
}


/// The character of a decimal digit `d < 10`.
pub open spec fn digit_char(d: nat) -> char {
    (d + 48) as char
}

/// Decimal notation of a natural number, without leading zeros.
pub open spec fn decimal(n: nat) -> Seq<char>
    decreases n,
{
    if n < 10 {
        seq![digit_char(n)]
    } else {
        decimal(n / 10).push(digit_char(n % 10))
    }
}

/// Decimal notation of an integer, with a leading `-` when it is negative.
pub open spec fn signed_decimal(n: int) -> Seq<char> {
    if n < 0 {
        seq!['-'] + decimal((-n) as nat)
    } else {
        decimal(n as nat)
    }
}

fn digit(d: u64) -> (c: char)
    requires
        d < 10,
    ensures
        c == digit_char(d as nat),
{
    ((d as u8) + 48u8) as char
}

/// Appends the decimal notation of `n` to `out`.
fn push_decimal(out: &mut String, n: u64)
    ensures
        final(out)@ == old(out)@ + decimal(n as nat),
    decreases n,
{
    if n < 10 {
        out.push(digit(n));
        assert(final(out)@ =~= old(out)@ + decimal(n as nat));
    } else {
        push_decimal(out, n / 10);
        out.push(digit(n % 10));
        assert(final(out)@ =~= old(out)@ + decimal(n as nat));
    }
}

/// Decimal notation of a `usize`, as `{}` writes it.
pub(crate) fn usize_to_decimal(n: usize) -> (r: String)
    ensures
        r@ == decimal(n as nat),
{
    let mut r = String::new();
    push_decimal(&mut r, n as u64);
    assert(r@ =~= decimal(n as nat));
    r
}

/// Decimal notation of an `i64`, as `{}` writes it.
pub(crate) fn i64_to_decimal(n: i64) -> (r: String)
    ensures
        r@ == signed_decimal(n as int),
{
    let mut r = String::new();
    if n < 0 {
        r.push('-');
        let magnitude: u64 = ((-(n + 1)) as u64) + 1;
        push_decimal(&mut r, magnitude);
        assert(r@ =~= signed_decimal(n as int));
    } else {
        push_decimal(&mut r, n as u64);
        assert(r@ =~= signed_decimal(n as int));
    }
    r
}


/// The pieces of `s` between line feeds: one more piece than `s` has line feeds.
pub open spec fn pieces(s: Seq<char>) -> Seq<Seq<char>>
    decreases s.len(),
{
    if s.len() == 0 {
        seq![Seq::<char>::empty()]
    } else {
        let r = pieces(s.drop_last());
        if s.last() == '\n' {
            r.push(Seq::<char>::empty())
        } else {
            r.update(r.len() - 1, r.last().push(s.last()))
        }
    }
}

/// A line without the carriage return that may end it.
pub open spec fn strip_cr(l: Seq<char>) -> Seq<char> {
    if l.len() > 0 && l.last() == '\r' {
        l.drop_last()
    } else {
        l
    }
}

/// The lines of `s`, as `str::lines` yields them: split at `\n`, a `\r` just
/// before a `\n` removed (a final `\r` with no `\n` after it is kept), and no
/// empty line after a final `\n`.
pub open spec fn lines_of(s: Seq<char>) -> Seq<Seq<char>> {
    let raw = pieces(s);
    let ended = raw.drop_last().map_values(|l: Seq<char>| strip_cr(l));
    if s.len() == 0 || s.last() == '\n' {
        ended
    } else {
        ended.push(raw.last())
    }
}

pub(crate) proof fn lemma_pieces_len(s: Seq<char>)
    ensures
        pieces(s).len() >= 1,
        pieces(s).last().len() == 0 <==> (s.len() == 0 || s.last() == '\n'),
    decreases s.len(),
{
    if s.len() > 0 {
        lemma_pieces_len(s.drop_last());
    }
}

/// The character sequences held by a sequence of character vectors.
pub open spec fn char_views(v: Seq<Vec<char>>) -> Seq<Seq<char>> {
    v.map_values(|l: Vec<char>| l@)
}

/// Splits `s` into its lines (see `lines_of`).
pub(crate) fn split_lines(s: &Vec<char>) -> (r: Vec<Vec<char>>)
    ensures
        char_views(r@) == lines_of(s@),
{
    let mut out: Vec<Vec<char>> = Vec::new();
    let mut cur: Vec<char> = Vec::new();
    let mut i: usize = 0;
    proof {
        assert(s@.subrange(0, 0) =~= Seq::<char>::empty());
    }
    while i < s.len()
        invariant
            i <= s.len(),
            pieces(s@.subrange(0, i as int)).len() >= 1,
            char_views(out@) == pieces(s@.subrange(0, i as int)).drop_last().map_values(
                |l: Seq<char>| strip_cr(l),
            ),
            cur@ == pieces(s@.subrange(0, i as int)).last(),
        decreases s.len() - i,
    {
        let ghost pre = s@.subrange(0, i as int);
        let ghost next = s@.subrange(0, i + 1);
        assert(next.drop_last() =~= pre);
        assert(next.last() == s@[i as int]);
        let c = s[i];
        if c == '\n' {
            let mut line = cur;
            let n = line.len();
            if n > 0 && line[n - 1] == '\r' {
                line.pop();
            }
            assert(line@ == strip_cr(pieces(pre).last()));
            let ghost before = char_views(out@);
            out.push(line);
            cur = Vec::new();
            assert(char_views(out@) =~= before.push(line@));
            assert(pieces(next) == pieces(pre).push(Seq::<char>::empty()));
            assert(pieces(next).drop_last() =~= pieces(pre));
            assert(pieces(pre).map_values(|l: Seq<char>| strip_cr(l)) =~= pieces(pre).drop_last().map_values(
                |l: Seq<char>| strip_cr(l),
            ).push(strip_cr(pieces(pre).last())));
            assert(char_views(out@) =~= pieces(next).drop_last().map_values(
                |l: Seq<char>| strip_cr(l),
            ));
        } else {
            cur.push(c);
            assert(pieces(next).drop_last() =~= pieces(pre).drop_last());
        }
        i += 1;
    }
    assert(s@.subrange(0, s.len() as int) =~= s@);
    proof {
        lemma_pieces_len(s@);
    }
    if cur.len() > 0 {
        let ghost before = char_views(out@);
        let ghost last = cur@;
        out.push(cur);
        assert(char_views(out@) =~= before.push(last));
        assert(char_views(out@) =~= lines_of(s@));
    } else {
        assert(char_views(out@) =~= lines_of(s@));
    }
    out
}


proof fn lemma_pieces_bounded(s: Seq<char>)
    ensures
        forall|i: int| 0 <= i < pieces(s).len() ==> #[trigger] pieces(s)[i].len() <= s.len(),
        pieces(s).len() <= s.len() + 1,
        s.len() > 0 && s.last() != '\n' ==> pieces(s).len() <= s.len(),
    decreases s.len(),
{
    if s.len() > 0 {
        let t = s.drop_last();
        lemma_pieces_bounded(t);
        lemma_pieces_len(t);
        let r = pieces(t);
        if s.last() == '\n' {
            assert(pieces(s) == r.push(Seq::<char>::empty()));
            assert forall|i: int| 0 <= i < pieces(s).len() implies #[trigger] pieces(s)[i].len()
                <= s.len() by {
                if i < r.len() {
                    assert(pieces(s)[i] == r[i]);
                }
            }
        } else {
            assert(pieces(s) == r.update(r.len() - 1, r.last().push(s.last())));
            assert forall|i: int| 0 <= i < pieces(s).len() implies #[trigger] pieces(s)[i].len()
                <= s.len() by {
                if i < r.len() - 1 {
                    assert(pieces(s)[i] == r[i]);
                } else {
                    assert(r[r.len() - 1].len() <= t.len());
                }
            }
        }
    }
}

/// Every line of `s` is at most as long as `s`, and `s` has at most as many
/// lines as characters.
pub proof fn lemma_lines_bounded(s: Seq<char>)
    ensures
        forall|i: int| 0 <= i < lines_of(s).len() ==> #[trigger] lines_of(s)[i].len() <= s.len(),
        lines_of(s).len() <= s.len(),
{
    lemma_pieces_bounded(s);
    lemma_pieces_len(s);
    let raw = pieces(s);
    assert forall|i: int| 0 <= i < lines_of(s).len() implies #[trigger] lines_of(s)[i].len()
        <= s.len() by {
        assert(raw[i].len() <= s.len());
        if i < raw.len() - 1 {
            assert(lines_of(s)[i] == strip_cr(raw[i]));
        } else {
            assert(lines_of(s)[i] == raw[i]);
        }
    }
}

} // verus!
