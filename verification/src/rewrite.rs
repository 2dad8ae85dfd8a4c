//! The tag rewriter: maps a raw identifier value and a positional suffix to a
//! disambiguated identifier. Identifiers are byte strings, as they appear in
//! the record tag they are read from.

use vstd::prelude::*;

verus! {

/// The byte values of ASCII `'0'`, `'9'` and `'-'`.
pub const DIGIT_ZERO: u8 = 48;

pub const DIGIT_NINE: u8 = 57;

pub const HYPHEN: u8 = 45;

/// An ASCII decimal digit.
pub open spec fn is_digit(b: u8) -> bool {
    DIGIT_ZERO <= b && b <= DIGIT_NINE
}

/// How many ASCII digits stand at the very end of `s`.
pub open spec fn trailing_digits(s: Seq<u8>) -> nat
    decreases s.len(),
{
    if s.len() == 0 {
        0
    } else if is_digit(s.last()) {
        trailing_digits(s.drop_last()) + 1
    } else {
        0
    }
}

/// Whether `s` ends in a hyphen followed by one or more ASCII digits.
pub open spec fn ends_with_dash_digits(s: Seq<u8>) -> bool {
    &&& trailing_digits(s) >= 1
    &&& trailing_digits(s) < s.len()
    &&& s[s.len() - 1 - trailing_digits(s)] == HYPHEN
}

/// What rewriting yields: if the identifier ends in `-<digits>`, that trailing
/// run (hyphen included) is replaced by `suffix`; otherwise `suffix` is
/// appended unchanged.
pub open spec fn rewrite_spec(id: Seq<u8>, suffix: Seq<u8>) -> Seq<u8> {
    if ends_with_dash_digits(id) {
        id.take(id.len() - 1 - trailing_digits(id)) + suffix
    } else {
        id + suffix
    }
}

/// The decimal digit string of `n`, most significant digit first.
pub open spec fn dec_digits(n: nat) -> Seq<u8>
    decreases n,
{
    if n < 10 {
        seq![(DIGIT_ZERO + n) as u8]
    } else {
        dec_digits(n / 10) + seq![(DIGIT_ZERO + n % 10) as u8]
    }
}

/// The positional suffix for the input at 1-based position `pos`: a hyphen
/// followed by the decimal digits of `pos`.
pub open spec fn suffix_spec(pos: nat) -> Seq<u8> {
    seq![HYPHEN] + dec_digits(pos)
}

/// Every byte of a decimal digit string is an ASCII digit.
pub proof fn lemma_dec_digits_are_digits(n: nat)
    ensures
        dec_digits(n).len() >= 1,
        forall|i: int| 0 <= i < dec_digits(n).len() ==> is_digit(#[trigger] dec_digits(n)[i]),
    decreases n,
{
    if n >= 10 {
        lemma_dec_digits_are_digits(n / 10);
    }
}

/// Append the decimal digits of `n` to `out`.
fn push_decimal(n: usize, out: &mut Vec<u8>)
    ensures
        final(out)@ == old(out)@ + dec_digits(n as nat),
    decreases n,
{
    if n < 10 {
        out.push(DIGIT_ZERO + n as u8);
        proof {
            assert(out@ =~= old(out)@ + dec_digits(n as nat));
        }
    } else {
        push_decimal(n / 10, out);
        out.push(DIGIT_ZERO + (n % 10) as u8);
        proof {
            assert(out@ =~= old(out)@ + dec_digits(n as nat));
        }
    }
}

/// Build the suffix `-<pos>` for the input at 1-based position `pos`.
pub fn make_suffix(pos: usize) -> (r: Vec<u8>)
    ensures
        r@ == suffix_spec(pos as nat),
{
    let mut r: Vec<u8> = Vec::new();
    r.push(HYPHEN);
    push_decimal(pos, &mut r);
    proof {
        assert(r@ =~= suffix_spec(pos as nat));
    }
    r
}

/// Count the trailing ASCII digits of `id`.
fn count_trailing_digits(id: &Vec<u8>) -> (r: usize)
    ensures
        r as nat == trailing_digits(id@),
{
    let mut r: usize = 0;
    proof {
        assert(id@.take(id@.len() as int) =~= id@);
    }
    while r < id.len() && id[id.len() - 1 - r] >= DIGIT_ZERO && id[id.len() - 1 - r] <= DIGIT_NINE
        invariant
            r <= id@.len(),
            trailing_digits(id@) == r as nat + trailing_digits(id@.take(id@.len() - r)),
        decreases id@.len() - r,
    {
        proof {
            let t = id@.take(id@.len() - r);
            assert(t.last() == id@[id@.len() - 1 - r]);
            assert(t.drop_last() =~= id@.take(id@.len() - (r + 1)));
        }
        r = r + 1;
    }
    proof {
        let t = id@.take(id@.len() - r);
        if r < id@.len() {
            assert(t.last() == id@[id@.len() - 1 - r]);
        }
        assert(trailing_digits(t) == 0);
    }
    r
}

/// Rewrite an identifier with a positional suffix: replace a trailing
/// `-<digits>` run by `suffix`, or append `suffix` if there is none.
pub fn sanitize_and_replace_cb(id: &Vec<u8>, suffix: &Vec<u8>) -> (r: Vec<u8>)
    ensures
        r@ == rewrite_spec(id@, suffix@),
        !ends_with_dash_digits(id@) ==> r@ == id@ + suffix@,
        ends_with_dash_digits(id@) ==> r@ == id@.take(id@.len() - 1 - trailing_digits(id@))
            + suffix@,
{
    let d = count_trailing_digits(id);
    let keep: usize = if d >= 1 && d < id.len() && id[id.len() - 1 - d] == HYPHEN {
        id.len() - 1 - d
    } else {
        id.len()
    };
    let mut r: Vec<u8> = Vec::new();
    let mut i: usize = 0;
    while i < keep
        invariant
            keep <= id@.len(),
            i <= keep,
            r@ =~= id@.take(i as int),
        decreases keep - i,
    {
        r.push(id[i]);
        i = i + 1;
    }
    let mut j: usize = 0;
    while j < suffix.len()
        invariant
            j <= suffix@.len(),
            r@ =~= id@.take(keep as int) + suffix@.take(j as int),
        decreases suffix@.len() - j,
    {
        r.push(suffix[j]);
        j = j + 1;
    }
    proof {
        assert(suffix@.take(suffix@.len() as int) =~= suffix@);
        if ends_with_dash_digits(id@) {
            assert(r@ =~= rewrite_spec(id@, suffix@));
        } else {
            assert(id@.take(id@.len() as int) =~= id@);
            assert(r@ =~= rewrite_spec(id@, suffix@));
        }
    }
    r
}

/// Appending a run of digits extends the trailing digit count by its length.
proof fn lemma_trailing_digits_append(x: Seq<u8>, y: Seq<u8>)
    requires
        forall|i: int| 0 <= i < y.len() ==> is_digit(#[trigger] y[i]),
    ensures
        trailing_digits(x + y) == y.len() + trailing_digits(x),
    decreases y.len(),
{
    if y.len() == 0 {
        assert(x + y =~= x);
    } else {
        let t = x + y;
        assert(t.last() == y.last());
        assert(t.drop_last() =~= x + y.drop_last());
        lemma_trailing_digits_append(x, y.drop_last());
    }
}

/// A positional suffix is a hyphen followed by one or more digits.
pub proof fn lemma_suffix_spec_shape(pos: nat)
    ensures
        suffix_spec(pos).len() >= 2,
        suffix_spec(pos)[0] == HYPHEN,
        forall|i: int| 1 <= i < suffix_spec(pos).len() ==> is_digit(#[trigger] suffix_spec(pos)[i]),
{
    lemma_dec_digits_are_digits(pos);
}

/// Rewriting is idempotent: once an identifier carries a positional suffix
/// (a hyphen followed by digits), rewriting it again with the same suffix
/// leaves it unchanged.
pub proof fn lemma_rewrite_idempotent(id: Seq<u8>, suffix: Seq<u8>)
    requires
        suffix.len() >= 2,
        suffix[0] == HYPHEN,
        forall|i: int| 1 <= i < suffix.len() ==> is_digit(#[trigger] suffix[i]),
    ensures
        rewrite_spec(rewrite_spec(id, suffix), suffix) == rewrite_spec(id, suffix),
{
    let p = if ends_with_dash_digits(id) {
        id.take(id.len() - 1 - trailing_digits(id))
    } else {
        id
    };
    let r = rewrite_spec(id, suffix);
    assert(r == p + suffix);
    let digits = suffix.subrange(1, suffix.len() as int);
    let x = p + seq![HYPHEN];
    assert(!is_digit(HYPHEN));
    assert(x.last() == HYPHEN);
    assert(trailing_digits(x) == 0);
    lemma_trailing_digits_append(x, digits);
    assert(x + digits =~= r);
    assert(trailing_digits(r) == digits.len());
    assert(r.len() == p.len() + suffix.len());
    assert(r[r.len() - 1 - trailing_digits(r)] == r[p.len() as int]);
    assert(r[p.len() as int] == suffix[0]);
    assert(ends_with_dash_digits(r));
    assert(rewrite_spec(r, suffix) == r.take(r.len() - 1 - trailing_digits(r)) + suffix);
    assert(r.take(p.len() as int) =~= p);
}

} // verus!
