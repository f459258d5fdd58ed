//! Byte-level scanning helpers shared by the target-address parser and
//! the port-registry classifier: ASCII whitespace trimming, splitting
//! on a separator byte, decimal digit runs, and case-insensitive
//! comparison of ASCII bytes.

use vstd::prelude::*;

verus! {

/// ASCII whitespace, the bytes that `trimmed` strips at either end.
pub open spec fn is_space(b: u8) -> bool {
    b == 9 || b == 10 || b == 11 || b == 12 || b == 13 || b == 32
}

/// `s` without its leading ASCII whitespace.
pub open spec fn trim_front(s: Seq<u8>) -> Seq<u8>
    decreases s.len(),
{
    if s.len() > 0 && is_space(s[0]) {
        trim_front(s.drop_first())
    } else {
        s
    }
}

/// `s` without its trailing ASCII whitespace.
pub open spec fn trim_back(s: Seq<u8>) -> Seq<u8>
    decreases s.len(),
{
    if s.len() > 0 && is_space(s[s.len() - 1]) {
        trim_back(s.drop_last())
    } else {
        s
    }
}

/// `s` without ASCII whitespace at either end.
pub open spec fn trimmed(s: Seq<u8>) -> Seq<u8> {
    trim_back(trim_front(s))
}

/// Lower-case image of one ASCII byte; other bytes are unchanged.
pub open spec fn ascii_lower(b: u8) -> u8 {
    if 65 <= b && b <= 90 {
        (b + 32) as u8
    } else {
        b
    }
}

/// An ASCII decimal digit.
pub open spec fn is_digit(b: u8) -> bool {
    48 <= b && b <= 57
}

/// Every byte of `s` is an ASCII decimal digit.
pub open spec fn all_digits(s: Seq<u8>) -> bool {
    forall|i: int| 0 <= i < s.len() ==> is_digit(#[trigger] s[i])
}

/// The value of `s` read as a decimal numeral, most significant digit
/// first.  Meaningful only when `all_digits(s)` holds.
pub open spec fn dec_val(s: Seq<u8>) -> int
    decreases s.len(),
{
    if s.len() == 0 {
        0
    } else {
        10 * dec_val(s.drop_last()) + (s[s.len() - 1] - 48)
    }
}

/// `s` split at every occurrence of `sep`.  The result always has one
/// part more than `s` has separators; empty parts are kept.
pub open spec fn split_by(s: Seq<u8>, sep: u8) -> Seq<Seq<u8>>
    decreases s.len(),
{
    if s.len() == 0 {
        seq![Seq::<u8>::empty()]
    } else if s[0] == sep {
        seq![Seq::<u8>::empty()] + split_by(s.drop_first(), sep)
    } else {
        let rest = split_by(s.drop_first(), sep);
        seq![seq![s[0]] + rest[0]] + rest.drop_first()
    }
}

pub proof fn lemma_split_by_len(s: Seq<u8>, sep: u8)
    ensures
        split_by(s, sep).len() >= 1,
    decreases s.len(),
{
    if s.len() > 0 {
        lemma_split_by_len(s.drop_first(), sep);
    }
}

/// A digit run is non-negative in value.
pub proof fn lemma_dec_val_nonneg(s: Seq<u8>)
    requires
        all_digits(s),
    ensures
        dec_val(s) >= 0,
    decreases s.len(),
{
    if s.len() > 0 {
        assert(all_digits(s.drop_last()));
        lemma_dec_val_nonneg(s.drop_last());
    }
}

/// Extending a digit run on the right never lowers its value.
pub proof fn lemma_dec_val_prefix(s: Seq<u8>, i: int)
    requires
        all_digits(s),
        0 <= i <= s.len(),
    ensures
        dec_val(s.take(i)) <= dec_val(s),
    decreases s.len() - i,
{
    if i < s.len() {
        assert(all_digits(s.take(i + 1)));
        assert(s.take(i + 1).drop_last() =~= s.take(i));
        lemma_dec_val_nonneg(s.take(i + 1).drop_last());
        assert(dec_val(s.take(i)) <= dec_val(s.take(i + 1)));
        lemma_dec_val_prefix(s, i + 1);
        assert(s.take(s.len() as int) =~= s);
    } else {
        assert(s.take(i) =~= s);
    }
}

/// A sequence whose ends are not whitespace trims to itself.
pub proof fn lemma_trimmed_id(s: Seq<u8>)
    requires
        s.len() > 0,
        !is_space(s[0]),
        !is_space(s[s.len() - 1]),
    ensures
        trimmed(s) == s,
{
}

/// Splitting a sequence free of the separator yields it whole.
pub proof fn lemma_split_absent(s: Seq<u8>, sep: u8)
    requires
        forall|i: int| 0 <= i < s.len() ==> s[i] != sep,
    ensures
        split_by(s, sep) =~~= seq![s],
    decreases s.len(),
{
    if s.len() > 0 {
        lemma_split_absent(s.drop_first(), sep);
        assert(seq![s[0]] + s.drop_first() =~= s);
    }
}

/// Splitting `a`, a separator, then `rest` first yields `a` whole when
/// `a` is free of the separator.
pub proof fn lemma_split_concat(a: Seq<u8>, rest: Seq<u8>, sep: u8)
    requires
        forall|i: int| 0 <= i < a.len() ==> a[i] != sep,
    ensures
        split_by(a + seq![sep] + rest, sep) =~~= seq![a] + split_by(rest, sep),
    decreases a.len(),
{
    let s = a + seq![sep] + rest;
    if a.len() == 0 {
        assert(s[0] == sep);
        assert(s.drop_first() =~= rest);
        assert(a =~= Seq::<u8>::empty());
    } else {
        assert(s[0] == a[0]);
        assert(s.drop_first() =~= a.drop_first() + seq![sep] + rest);
        lemma_split_concat(a.drop_first(), rest, sep);
        let restsplit = split_by(s.drop_first(), sep);
        assert(restsplit =~~= seq![a.drop_first()] + split_by(rest, sep));
        assert(restsplit[0] == a.drop_first());
        assert(seq![s[0]] + restsplit[0] =~= a);
        assert(restsplit.drop_first() =~~= split_by(rest, sep));
    }
}

/// Exec mirror of `is_space`.
pub fn is_space_x(b: u8) -> (r: bool)
    ensures
        r == is_space(b),
{
    b == 9 || b == 10 || b == 11 || b == 12 || b == 13 || b == 32
}

/// Exec mirror of `is_digit`.
pub fn is_digit_x(b: u8) -> (r: bool)
    ensures
        r == is_digit(b),
{
    48 <= b && b <= 57
}

/// Exec mirror of `ascii_lower`.
pub fn ascii_lower_x(b: u8) -> (r: u8)
    ensures
        r == ascii_lower(b),
{
    if 65 <= b && b <= 90 {
        b + 32
    } else {
        b
    }
}

/// Copy of `v` with ASCII whitespace stripped at either end.
pub fn trim(v: &[u8]) -> (r: Vec<u8>)
    ensures
        r@ == trimmed(v@),
{
    proof {
        assert(v@.skip(0) =~= v@);
    }
    let mut i: usize = 0;
    while i < v.len() && is_space_x(v[i])
        invariant
            0 <= i <= v.len(),
            trim_front(v@) == trim_front(v@.skip(i as int)),
        decreases v.len() - i,
    {
        proof {
            assert(v@.skip(i as int).drop_first() =~= v@.skip(i + 1));
        }
        i = i + 1;
    }
    proof {
        if i < v.len() {
            assert(trim_front(v@) == v@.skip(i as int));
        } else {
            assert(v@.skip(i as int) =~= Seq::<u8>::empty());
            assert(trim_front(v@) =~= v@.skip(i as int));
        }
    }
    proof {
        assert(v@.skip(i as int) =~= v@.subrange(i as int, v@.len() as int));
    }
    let mut j: usize = v.len();
    while j > i && is_space_x(v[j - 1])
        invariant
            i <= j <= v.len(),
            i <= v.len(),
            trim_front(v@) == v@.skip(i as int),
            trim_back(v@.skip(i as int)) == trim_back(v@.subrange(i as int, j as int)),
        decreases j,
    {
        proof {
            assert(v@.subrange(i as int, j as int).drop_last() =~= v@.subrange(
                i as int,
                j - 1,
            ));
        }
        j = j - 1;
    }
    proof {
        if j > i {
            assert(trim_back(v@.subrange(i as int, j as int)) == v@.subrange(
                i as int,
                j as int,
            ));
        } else {
            assert(v@.subrange(i as int, j as int) =~= Seq::<u8>::empty());
            assert(trim_back(v@.subrange(i as int, j as int)) =~= v@.subrange(
                i as int,
                j as int,
            ));
        }
    }
    let mut r: Vec<u8> = Vec::new();
    let mut k: usize = i;
    while k < j
        invariant
            i <= k <= j <= v.len(),
            r@ =~= v@.subrange(i as int, k as int),
        decreases j - k,
    {
        r.push(v[k]);
        k = k + 1;
    }
    proof {
        assert(r@ =~= v@.subrange(i as int, j as int));
    }
    r
}

/// Some byte of `s` is `b`.
pub open spec fn has_byte(s: Seq<u8>, b: u8) -> bool {
    exists|i: int| 0 <= i < s.len() && #[trigger] s[i] == b
}

/// Exec mirror of `has_byte`.
pub fn has_byte_x(v: &[u8], b: u8) -> (r: bool)
    ensures
        r == has_byte(v@, b),
{
    let mut i: usize = 0;
    while i < v.len()
        invariant
            0 <= i <= v.len(),
            forall|k: int| 0 <= k < i ==> #[trigger] v@[k] != b,
        decreases v.len() - i,
    {
        if v[i] == b {
            return true;
        }
        i = i + 1;
    }
    false
}

/// A fresh copy of the bytes.
pub fn copy_bytes(v: &[u8]) -> (r: Vec<u8>)
    ensures
        r@ == v@,
{
    let mut r: Vec<u8> = Vec::new();
    let mut i: usize = 0;
    while i < v.len()
        invariant
            0 <= i <= v.len(),
            r@ =~= v@.take(i as int),
        decreases v.len() - i,
    {
        r.push(v[i]);
        i = i + 1;
    }
    proof {
        assert(v@.take(v@.len() as int) =~= v@);
    }
    r
}

/// True iff the two byte sequences hold the same bytes.
pub fn bytes_eq(a: &[u8], b: &[u8]) -> (r: bool)
    ensures
        r == (a@ == b@),
{
    if a.len() != b.len() {
        proof {
            assert(a@.len() != b@.len());
        }
        return false;
    }
    let mut i: usize = 0;
    while i < a.len()
        invariant
            0 <= i <= a.len(),
            a.len() == b.len(),
            forall|k: int| 0 <= k < i ==> a@[k] == b@[k],
        decreases a.len() - i,
    {
        if a[i] != b[i] {
            return false;
        }
        i = i + 1;
    }
    proof {
        assert(a@ =~= b@);
    }
    true
}

/// The parts of `v` between occurrences of `sep`, in order.
pub fn split_bytes(v: &[u8], sep: u8) -> (r: Vec<Vec<u8>>)
    ensures
        r.deep_view() == split_by(v@, sep),
{
    let mut done: Vec<Vec<u8>> = Vec::new();
    let mut cur: Vec<u8> = Vec::new();
    let mut i: usize = 0;
    proof {
        assert(v@.skip(0) =~= v@);
        assert(done.deep_view() =~~= Seq::<Seq<u8>>::empty());
        lemma_split_by_len(v@, sep);
        assert(split_by(v@, sep) =~~= done.deep_view() + seq![cur@ + split_by(
            v@.skip(0),
            sep,
        )[0]] + split_by(v@.skip(0), sep).drop_first());
    }
    while i < v.len()
        invariant
            0 <= i <= v.len(),
            split_by(v@, sep) =~~= done.deep_view() + seq![cur@ + split_by(
                v@.skip(i as int),
                sep,
            )[0]] + split_by(v@.skip(i as int), sep).drop_first(),
        decreases v.len() - i,
    {
        let ghost s_i = split_by(v@.skip(i as int), sep);
        let ghost s_n = split_by(v@.skip(i + 1), sep);
        let ghost done0 = done.deep_view();
        let ghost cur0 = cur@;
        if v[i] == sep {
            proof {
                lemma_split_by_len(v@.skip(i + 1), sep);
                assert(v@.skip(i as int).drop_first() =~= v@.skip(i + 1));
                assert(v@.skip(i as int)[0] == v@[i as int]);
                assert(s_i =~~= seq![Seq::<u8>::empty()] + s_n);
                assert(s_i[0] =~= Seq::<u8>::empty());
                assert(s_i.drop_first() =~~= s_n);
            }
            done.push(cur);
            cur = Vec::new();
            proof {
                assert(done.deep_view() =~~= done0.push(cur0 + s_i[0]));
                assert(cur0 + s_i[0] =~= cur0);
                assert(done.deep_view() + seq![cur@ + s_n[0]] + s_n.drop_first() =~~= done0
                    + seq![cur0] + (seq![s_n[0]] + s_n.drop_first()));
                assert(seq![s_n[0]] + s_n.drop_first() =~~= s_n);
                assert(done0 + seq![cur0 + s_i[0]] + s_i.drop_first() =~~= done0 + seq![cur0]
                    + s_n);
            }
        } else {
            let b = v[i];
            cur.push(b);
            proof {
                lemma_split_by_len(v@.skip(i + 1), sep);
                assert(v@.skip(i as int).drop_first() =~= v@.skip(i + 1));
                assert(v@.skip(i as int)[0] == v@[i as int]);
                assert(s_i =~~= seq![seq![v@[i as int]] + s_n[0]] + s_n.drop_first());
                assert(cur@ =~= cur0.push(b));
                assert(cur@ + s_n[0] =~= cur0 + (seq![v@[i as int]] + s_n[0]));
                assert(s_i[0] =~= seq![v@[i as int]] + s_n[0]);
                assert(s_i.drop_first() =~~= s_n.drop_first());
                assert(done.deep_view() + seq![cur@ + s_n[0]] + s_n.drop_first() =~~= done0
                    + seq![cur0 + s_i[0]] + s_i.drop_first());
            }
        }
        i = i + 1;
    }
    proof {
        assert(v@.skip(i as int) =~= Seq::<u8>::empty());
        assert(split_by(v@.skip(i as int), sep) =~~= seq![Seq::<u8>::empty()]);
        assert(cur@ + split_by(v@.skip(i as int), sep)[0] =~= cur@);
        assert(split_by(v@, sep) =~~= done.deep_view() + seq![cur@]);
    }
    let ghost done1 = done.deep_view();
    let ghost cur1 = cur@;
    done.push(cur);
    proof {
        assert(done.deep_view() =~~= done1.push(cur1));
        assert(done.deep_view() =~~= done1 + seq![cur1]);
    }
    done
}

} // verus!
