//! Unsigned numbers as big-endian byte strings.
use vstd::prelude::*;

verus! {

/// The number that `s` spells in base 256, most significant byte first.
pub open spec fn be_value(s: Seq<u8>) -> nat
    decreases s.len(),
{
    if s.len() == 0 {
        0
    } else {
        256 * be_value(s.drop_last()) + s.last() as nat
    }
}

/// The shortest byte string that spells `n`: empty for zero, without a leading zero otherwise.
pub open spec fn be_bytes(n: nat) -> Seq<u8>
    decreases n,
{
    if n == 0 {
        Seq::empty()
    } else {
        be_bytes(n / 256).push((n % 256) as u8)
    }
}

/// 256 to the power of `k`: how many numbers `k` bytes can spell.
pub open spec fn byte_range(k: nat) -> nat
    decreases k,
{
    if k == 0 {
        1
    } else {
        256 * byte_range((k - 1) as nat)
    }
}

/// Writing a number down and reading it back gives the number.
pub proof fn lemma_value_of_bytes(n: nat)
    ensures
        be_value(be_bytes(n)) == n,
    decreases n,
{
    if n > 0 {
        lemma_value_of_bytes(n / 256);
        assert(be_bytes(n).drop_last() =~= be_bytes(n / 256));
    }
}

/// The shortest spelling has no leading zero, and only zero is spelt by no byte at all.
pub proof fn lemma_bytes_no_leading_zero(n: nat)
    ensures
        be_bytes(n).len() == 0 <==> n == 0,
        n > 0 ==> be_bytes(n)[0] != 0,
    decreases n,
{
    if n >= 256 {
        lemma_bytes_no_leading_zero(n / 256);
    } else if n > 0 {
        assert(be_bytes(n / 256) =~= Seq::empty());
    }
}

/// A byte string without a leading zero is the shortest spelling of its own value.
pub proof fn lemma_bytes_of_value(s: Seq<u8>)
    requires
        s.len() > 0 ==> s[0] != 0,
    ensures
        be_bytes(be_value(s)) == s,
        s.len() > 0 ==> be_value(s) > 0,
    decreases s.len(),
{
    if s.len() > 0 {
        let prefix = s.drop_last();
        let v = be_value(s);
        if prefix.len() > 0 {
            assert(prefix[0] == s[0]);
        }
        lemma_bytes_of_value(prefix);
        assert(v / 256 == be_value(prefix));
        assert(v % 256 == s.last() as nat);
        assert(be_bytes(v) =~= s);
    }
}

/// `k` bytes spell a number below `byte_range(k)`.
pub proof fn lemma_value_bound(s: Seq<u8>)
    ensures
        be_value(s) < byte_range(s.len()),
    decreases s.len(),
{
    if s.len() > 0 {
        lemma_value_bound(s.drop_last());
    }
}

/// A number below `byte_range(k)` needs at most `k` bytes.
pub proof fn lemma_bytes_len(n: nat, k: nat)
    requires
        n < byte_range(k),
    ensures
        be_bytes(n).len() <= k,
    decreases k,
{
    if n > 0 {
        lemma_bytes_len(n / 256, (k - 1) as nat);
    }
}

/// `byte_range` grows with its argument.
pub proof fn lemma_byte_range_grows(j: nat, k: nat)
    requires
        j <= k,
    ensures
        1 <= byte_range(j) <= byte_range(k),
    decreases k,
{
    if j < k {
        lemma_byte_range_grows(j, (k - 1) as nat);
    } else if k > 0 {
        lemma_byte_range_grows((j - 1) as nat, (k - 1) as nat);
    }
}

/// Eight bytes hold exactly the `u64` range, sixteen the `u128` range.
pub proof fn lemma_word_ranges()
    ensures
        byte_range(8) == u64::MAX + 1,
        byte_range(16) == u128::MAX + 1,
{
    reveal_with_fuel(byte_range, 17);
}

/// The value of a joined string: the head counts `byte_range` of the tail's length.
pub proof fn lemma_value_join(head: Seq<u8>, tail: Seq<u8>)
    ensures
        be_value(head + tail) == be_value(head) * byte_range(tail.len()) + be_value(tail),
    decreases tail.len(),
{
    if tail.len() == 0 {
        assert(head + tail =~= head);
        assert(be_value(head) * byte_range(0) == be_value(head)) by (nonlinear_arith)
            requires
                byte_range(0) == 1,
        ;
    } else {
        let t = tail.drop_last();
        lemma_value_join(head, t);
        assert((head + tail).drop_last() =~= head + t);
        let h = be_value(head);
        let r = byte_range(t.len());
        assert((head + tail).last() == tail.last());
        assert(256 * (h * r) == h * (256 * r)) by (nonlinear_arith);
        assert(256 * r == byte_range(tail.len()));
    }
}

/// Reads at most eight bytes as a number.
pub fn read_be(s: &[u8]) -> (r: u64)
    requires
        s@.len() <= 8,
    ensures
        r == be_value(s@),
{
    let mut acc: u64 = 0;
    let mut i: usize = 0;
    while i < s.len()
        invariant
            i <= s@.len() <= 8,
            acc == be_value(s@.take(i as int)),
        decreases s@.len() - i,
    {
        proof {
            let next = s@.take(i as int + 1);
            assert(next.drop_last() =~= s@.take(i as int));
            lemma_value_bound(next);
            lemma_byte_range_grows(next.len(), 8);
            lemma_word_ranges();
        }
        acc = acc * 256 + s[i] as u64;
        i += 1;
    }
    assert(s@.take(i as int) =~= s@);
    acc
}

/// Reads at most sixteen bytes as a number.
pub fn read_be_wide(s: &[u8]) -> (r: u128)
    requires
        s@.len() <= 16,
    ensures
        r == be_value(s@),
{
    let mut acc: u128 = 0;
    let mut i: usize = 0;
    while i < s.len()
        invariant
            i <= s@.len() <= 16,
            acc == be_value(s@.take(i as int)),
        decreases s@.len() - i,
    {
        proof {
            let next = s@.take(i as int + 1);
            assert(next.drop_last() =~= s@.take(i as int));
            lemma_value_bound(next);
            lemma_byte_range_grows(next.len(), 16);
            lemma_word_ranges();
        }
        acc = acc * 256 + s[i] as u128;
        i += 1;
    }
    assert(s@.take(i as int) =~= s@);
    acc
}

/// Writes a number in as few bytes as possible.
pub fn write_be(n: u64) -> (r: Vec<u8>)
    ensures
        r@ == be_bytes(n as nat),
    decreases n,
{
    if n == 0 {
        Vec::new()
    } else {
        let mut r = write_be(n / 256);
        r.push((n % 256) as u8);
        r
    }
}

/// A 256-bit unsigned integer, kept as its 32 big-endian bytes.
#[derive(Clone, Copy, Debug, PartialEq, Eq, Hash)]
pub struct U256 {
    pub be: [u8; 32],
}

impl View for U256 {
    type V = nat;

    open spec fn view(&self) -> nat {
        be_value(self.be@)
    }
}

/// `s` behind as many zeros as fill it up to `width` bytes.
pub open spec fn left_padded(s: Seq<u8>, width: nat) -> Seq<u8> {
    Seq::new((width - s.len()) as nat, |i: int| 0u8) + s
}

/// Zeros in front change nothing about the value.
pub proof fn lemma_padding_value(zeros: nat, s: Seq<u8>)
    ensures
        be_value(Seq::new(zeros, |i: int| 0u8) + s) == be_value(s),
    decreases zeros + s.len(),
{
    let padded = Seq::new(zeros, |i: int| 0u8) + s;
    if s.len() > 0 {
        lemma_padding_value(zeros, s.drop_last());
        assert(padded.drop_last() =~= Seq::new(zeros, |i: int| 0u8) + s.drop_last());
    } else if zeros > 0 {
        lemma_padding_value((zeros - 1) as nat, s);
        assert(padded.drop_last() =~= Seq::new((zeros - 1) as nat, |i: int| 0u8) + s);
    }
}

/// Equal lengths and equal values mean equal bytes.
pub proof fn lemma_value_injective(a: Seq<u8>, b: Seq<u8>)
    requires
        a.len() == b.len(),
        be_value(a) == be_value(b),
    ensures
        a == b,
    decreases a.len(),
{
    if a.len() > 0 {
        lemma_value_injective(a.drop_last(), b.drop_last());
        assert(a =~= a.drop_last().push(a.last()));
        assert(b =~= b.drop_last().push(b.last()));
    }
}

impl U256 {
    /// The number that at most 32 big-endian bytes spell.
    pub fn from_be_slice(s: &[u8]) -> (r: U256)
        requires
            s@.len() <= 32,
        ensures
            r@ == be_value(s@),
            r.be@ == left_padded(s@, 32),
    {
        let mut be = [0u8; 32];
        let zeros: usize = 32 - s.len();
        let mut i: usize = 0;
        while i < s.len()
            invariant
                i <= s@.len() <= 32,
                zeros == 32 - s@.len(),
                forall|j: int| 0 <= j < zeros ==> be@[j] == 0,
                forall|j: int| 0 <= j < i ==> be@[zeros + j] == s@[j],
            decreases s@.len() - i,
        {
            be[zeros + i] = s[i];
            i += 1;
        }
        proof {
            assert(be@ =~= left_padded(s@, 32));
            lemma_padding_value(zeros as nat, s@);
        }
        U256 { be }
    }

    /// Widens a 64-bit number.
    pub fn from_u64(n: u64) -> (r: U256)
        ensures
            r@ == n,
    {
        let bytes = write_be(n);
        proof {
            lemma_word_ranges();
            lemma_bytes_len(n as nat, 8);
            lemma_value_of_bytes(n as nat);
        }
        U256::from_be_slice(bytes.as_slice())
    }

    /// The number in as few bytes as possible.
    pub fn trimmed(&self) -> (r: &[u8])
        ensures
            r@ == be_bytes(self@),
            r@.len() <= 32,
    {
        let all: &[u8] = self.be.as_slice();
        let mut i: usize = 0;
        while i < 32 && all[i] == 0
            invariant
                i <= 32,
                all@ == self.be@,
                all@.len() == 32,
                forall|j: int| 0 <= j < i ==> all@[j] == 0,
            decreases 32 - i,
        {
            i += 1;
        }
        let r = vstd::slice::slice_subrange(all, i, 32);
        proof {
            assert(self.be@ =~= Seq::new(i as nat, |j: int| 0u8) + r@);
            lemma_padding_value(i as nat, r@);
            lemma_bytes_of_value(r@);
        }
        r
    }
}

/// The number itself where sixteen bytes can hold it, nothing where they cannot.
pub fn u256_to_u128(v: U256) -> (r: Option<u128>)
    ensures
        r == (if v@ <= u128::MAX {
            Some(v@ as u128)
        } else {
            None
        }),
{
    let all: &[u8] = v.be.as_slice();
    let high = read_be_wide(vstd::slice::slice_subrange(all, 0, 16));
    let low = read_be_wide(vstd::slice::slice_subrange(all, 16, 32));
    proof {
        let h = all@.subrange(0, 16);
        let l = all@.subrange(16, 32);
        assert(v.be@ =~= h + l);
        lemma_value_join(h, l);
        lemma_value_bound(l);
        lemma_word_ranges();
        let range = byte_range(16);
        if high > 0 {
            assert(be_value(h) * range >= range) by (nonlinear_arith)
                requires
                    be_value(h) >= 1,
                    range >= 0,
            ;
        } else {
            assert(be_value(h) * range == 0) by (nonlinear_arith)
                requires
                    be_value(h) == 0,
            ;
        }
    }
    if high == 0 {
        Some(low)
    } else {
        None
    }
}

/// A byte behind others adds its own value to theirs, shifted by one byte. So a number is spelt with
/// its most significant byte first.
pub proof fn law_value_of_digits(s: Seq<u8>, b: u8)
    ensures
        be_value(Seq::<u8>::empty()) == 0,
        be_value(s.push(b)) == 256 * be_value(s) + b,
{
    assert(s.push(b).drop_last() =~= s);
}

/// The shortest spelling of a number is the only one without a leading zero.
pub proof fn law_shortest_spelling(n: nat, s: Seq<u8>)
    ensures
        s == be_bytes(n) <==> be_value(s) == n && (s.len() > 0 ==> s[0] != 0),
{
    lemma_value_of_bytes(n);
    lemma_bytes_no_leading_zero(n);
    if be_value(s) == n && (s.len() > 0 ==> s[0] != 0) {
        lemma_bytes_of_value(s);
    }
}

} // verus!
