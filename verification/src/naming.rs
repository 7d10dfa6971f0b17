//! The numbered file names under which frames travel to and from the
//! external encoder and decoder, and the numeric order they induce.
//!
//! The encoder is handed files named `image<n>.bmp`, numbered from 1 in
//! display order; the decoder produces files named `image<n>.png`. Decoded
//! files must be loaded in ascending numeric order of `n` — numeric, not
//! lexicographic, so `image2.png` comes before `image10.png`.

use vstd::prelude::*;

verus! {

/// Whether `b` is an ASCII decimal digit.
pub open spec fn is_digit(b: u8) -> bool {
    0x30 <= b <= 0x39
}

/// The ASCII decimal digits of `n`, most significant first, with no
/// leading zeros.
pub open spec fn dec_digits(n: nat) -> Seq<u8>
    decreases n,
{
    if n < 10 {
        seq![(n + 0x30) as u8]
    } else {
        dec_digits(n / 10).push(((n % 10) + 0x30) as u8)
    }
}

/// The numeric value of a sequence of ASCII decimal digits, most
/// significant first.
pub open spec fn digits_value(s: Seq<u8>) -> nat
    decreases s.len(),
{
    if s.len() == 0 {
        0
    } else {
        (digits_value(s.drop_last()) * 10 + (s.last() - 0x30)) as nat
    }
}

/// The bytes of `image`, the stem shared by all frame file names.
pub open spec fn image_prefix() -> Seq<u8> {
    seq![105u8, 109u8, 97u8, 103u8, 101u8]
}

/// The bytes of `.png`, the extension of decoder-produced frames.
pub open spec fn png_suffix() -> Seq<u8> {
    seq![46u8, 112u8, 110u8, 103u8]
}

/// The bytes of `.bmp`, the extension of encoder-bound frames.
pub open spec fn bmp_suffix() -> Seq<u8> {
    seq![46u8, 98u8, 109u8, 112u8]
}

/// The bytes of the file name `image<n>.png`.
pub open spec fn png_name(n: nat) -> Seq<u8> {
    image_prefix() + dec_digits(n) + png_suffix()
}

/// The bytes of the file name `image<n>.bmp`.
pub open spec fn bmp_name(n: nat) -> Seq<u8> {
    image_prefix() + dec_digits(n) + bmp_suffix()
}

/// Whether `name` has the shape of a decoder-produced frame file name:
/// `image`, then at least one ASCII digit, then `.png`. Leading zeros are
/// accepted.
pub open spec fn is_png_frame_name(name: Seq<u8>) -> bool {
    &&& name.len() >= 10
    &&& name.subrange(0, 5) == image_prefix()
    &&& name.subrange(name.len() - 4, name.len() as int) == png_suffix()
    &&& forall|i: int| 5 <= i < name.len() - 4 ==> is_digit(#[trigger] name[i])
}

/// The digit bytes in the middle of a frame file name.
pub open spec fn name_digits(name: Seq<u8>) -> Seq<u8> {
    name.subrange(5, name.len() - 4)
}

/// The frame index embedded in a decoder-produced file name: the numeric
/// value of the digits between `image` and `.png`, if the name has that
/// shape and the value fits in a `u64`.
pub open spec fn spec_frame_index(name: Seq<u8>) -> Option<u64> {
    if is_png_frame_name(name) && digits_value(name_digits(name)) <= u64::MAX {
        Some(digits_value(name_digits(name)) as u64)
    } else {
        None
    }
}

/// The value of a digit sequence is at least the value of any of its
/// prefixes: appending digits never shrinks the value.
proof fn lemma_digits_value_take_le(s: Seq<u8>, k: int)
    requires
        0 <= k <= s.len(),
        forall|i: int| 0 <= i < s.len() ==> is_digit(#[trigger] s[i]),
    ensures
        digits_value(s.take(k)) <= digits_value(s),
    decreases s.len() - k,
{
    if k < s.len() {
        assert(s.take(k + 1).drop_last() =~= s.take(k));
        assert(s.take(k + 1).last() == s[k]);
        assert(is_digit(s[k]));
        assert(digits_value(s.take(k + 1)) == digits_value(s.take(k)) * 10 + (s[k] - 0x30));
        lemma_digits_value_take_le(s, k + 1);
    } else {
        assert(s.take(k) =~= s);
    }
}

/// Every byte of a decimal representation is an ASCII digit.
proof fn lemma_dec_digits_are_digits(n: nat)
    ensures
        dec_digits(n).len() >= 1,
        forall|i: int| 0 <= i < dec_digits(n).len() ==> is_digit(#[trigger] dec_digits(n)[i]),
    decreases n,
{
    vstd::arithmetic::div_mod::lemma_mod_bound(n as int, 10);
    if n >= 10 {
        lemma_dec_digits_are_digits(n / 10);
    }
}

/// The value of the decimal representation of `n` is `n` itself.
proof fn lemma_dec_digits_value(n: nat)
    ensures
        digits_value(dec_digits(n)) == n,
    decreases n,
{
    if n < 10 {
        assert(dec_digits(n).drop_last() =~= Seq::<u8>::empty());
        assert(digits_value(Seq::<u8>::empty()) == 0);
        assert(dec_digits(n).last() == (n + 0x30) as u8);
    } else {
        lemma_dec_digits_value(n / 10);
        vstd::arithmetic::div_mod::lemma_mod_bound(n as int, 10);
        vstd::arithmetic::div_mod::lemma_fundamental_div_mod(n as int, 10);
        assert(dec_digits(n).drop_last() =~= dec_digits(n / 10));
    }
}

/// Parsing the name built for frame index `n` gives back exactly `n`: the
/// file names handed to the decoder's output and the index read from them
/// agree.
pub proof fn lemma_frame_name_round_trip(n: u64)
    ensures
        spec_frame_index(png_name(n as nat)) == Some(n),
{
    let name = png_name(n as nat);
    let digits = dec_digits(n as nat);
    lemma_dec_digits_are_digits(n as nat);
    lemma_dec_digits_value(n as nat);
    assert(name.subrange(0, 5) =~= image_prefix());
    assert(name.subrange(name.len() - 4, name.len() as int) =~= png_suffix());
    assert forall|i: int| 5 <= i < name.len() - 4 implies is_digit(#[trigger] name[i]) by {
        assert(name[i] == digits[i - 5]);
    }
    assert(name_digits(name) =~= digits);
}

/// The decimal digits of `n`, as ASCII bytes, most significant first.
pub fn dec_bytes(n: u64) -> (r: Vec<u8>)
    ensures
        r@ == dec_digits(n as nat),
    decreases n,
{
    if n < 10 {
        let mut v: Vec<u8> = Vec::new();
        v.push((n as u8) + 0x30);
        proof {
            assert(v@ =~= dec_digits(n as nat));
        }
        v
    } else {
        let mut v = dec_bytes(n / 10);
        v.push(((n % 10) as u8) + 0x30);
        v
    }
}

/// The file name `image<index>.png`, as bytes.
pub fn png_frame_name(index: u64) -> (r: Vec<u8>)
    ensures
        r@ == png_name(index as nat),
{
    let mut v: Vec<u8> = Vec::new();
    v.push(105);  // 'i'
    v.push(109);  // 'm'
    v.push(97);  // 'a'
    v.push(103);  // 'g'
    v.push(101);  // 'e'
    let mut digits = dec_bytes(index);
    v.append(&mut digits);
    v.push(46);  // '.'
    v.push(112);  // 'p'
    v.push(110);  // 'n'
    v.push(103);  // 'g'
    proof {
        assert(v@ =~= png_name(index as nat));
    }
    v
}

/// The file name `image<index>.bmp`, as bytes.
pub fn bmp_frame_name(index: u64) -> (r: Vec<u8>)
    ensures
        r@ == bmp_name(index as nat),
{
    let mut v: Vec<u8> = Vec::new();
    v.push(105);  // 'i'
    v.push(109);  // 'm'
    v.push(97);  // 'a'
    v.push(103);  // 'g'
    v.push(101);  // 'e'
    let mut digits = dec_bytes(index);
    v.append(&mut digits);
    v.push(46);  // '.'
    v.push(98);  // 'b'
    v.push(109);  // 'm'
    v.push(112);  // 'p'
    proof {
        assert(v@ =~= bmp_name(index as nat));
    }
    v
}

/// The frame index embedded in a decoder-produced file name, or `None` if
/// the name is not `image<digits>.png` or the value does not fit in a
/// `u64`.
pub fn frame_index_of_name(name: &Vec<u8>) -> (r: Option<u64>)
    ensures
        r == spec_frame_index(name@),
{
    let n: usize = name.len();
    if n < 10 {
        return None;
    }
    if name[0] != 105 || name[1] != 109 || name[2] != 97 || name[3] != 103 || name[4] != 101 {
        proof {
            assert(!(name@.subrange(0, 5) == image_prefix())) by {
                if name@.subrange(0, 5) == image_prefix() {
                    assert(forall|i: int|
                        0 <= i < 5 ==> name@.subrange(0, 5)[i] == image_prefix()[i]);
                }
            }
        }
        return None;
    }
    if name[n - 4] != 46 || name[n - 3] != 112 || name[n - 2] != 110 || name[n - 1] != 103 {
        proof {
            let m = name@.len() as int;
            assert(!(name@.subrange(m - 4, m) == png_suffix())) by {
                if name@.subrange(m - 4, m) == png_suffix() {
                    assert(forall|i: int|
                        0 <= i < 4 ==> name@.subrange(m - 4, m)[i] == png_suffix()[i]);
                }
            }
        }
        return None;
    }
    let mut acc: u64 = 0;
    let mut i: usize = 5;
    while i < n - 4
        invariant
            5 <= i <= n - 4,
            n == name@.len(),
            n >= 10,
            forall|j: int| 5 <= j < i ==> is_digit(#[trigger] name@[j]),
            acc == digits_value(name@.subrange(5, i as int)),
        decreases n - 4 - i,
    {
        let b: u8 = name[i];
        if b < 0x30 || b > 0x39 {
            return None;
        }
        let d: u64 = (b - 0x30) as u64;
        if acc > (u64::MAX - d) / 10 {
            proof {
                vstd::arithmetic::div_mod::lemma_fundamental_div_mod((u64::MAX - d) as int, 10);
                vstd::arithmetic::div_mod::lemma_mod_bound((u64::MAX - d) as int, 10);
                assert(acc * 10 + d > u64::MAX);
                if is_png_frame_name(name@) {
                    let digits = name_digits(name@);
                    assert forall|t: int| 0 <= t < digits.len() implies is_digit(
                        #[trigger] digits[t],
                    ) by {
                        assert(digits[t] == name@[5 + t]);
                    }
                    assert(name@.subrange(5, i + 1).drop_last() =~= name@.subrange(5, i as int));
                    assert(name@.subrange(5, i + 1).last() == name@[i as int]);
                    assert(digits_value(name@.subrange(5, i + 1)) == acc * 10 + d);
                    assert(digits.take(i + 1 - 5) =~= name@.subrange(5, i + 1));
                    lemma_digits_value_take_le(digits, i + 1 - 5);
                    assert(digits_value(digits) > u64::MAX);
                }
            }
            return None;
        }
        acc = acc * 10 + d;
        proof {
            assert(name@.subrange(5, i + 1).drop_last() =~= name@.subrange(5, i as int));
            assert(name@.subrange(5, i + 1).last() == name@[i as int]);
        }
        i = i + 1;
    }
    proof {
        assert(name@.subrange(0, 5) =~= image_prefix());
        assert(name@.subrange(name@.len() - 4, name@.len() as int) =~= png_suffix());
        assert(is_png_frame_name(name@));
        assert(name@.subrange(5, i as int) == name_digits(name@));
    }
    Some(acc)
}

/// A loading order for decoded frame files: `r` holds each position
/// `0 .. keys.len()` exactly once, arranged so that the keys they point at
/// are ascending. Loading files in this order puts frames in display
/// order.
pub fn sort_order(keys: &Vec<u64>) -> (r: Vec<usize>)
    ensures
        r@.len() == keys@.len(),
        forall|i: int| 0 <= i < r@.len() ==> (#[trigger] r@[i]) < keys@.len(),
        forall|i: int, j: int| 0 <= i < j < r@.len() ==> r@[i] != r@[j],
        forall|i: int, j: int|
            0 <= i < j < r@.len() ==> keys@[r@[i] as int] <= keys@[r@[j] as int],
{
    let n: usize = keys.len();
    let mut r: Vec<usize> = Vec::new();
    let mut i: usize = 0;
    while i < n
        invariant
            i <= n,
            r@.len() == i,
            forall|k: int| 0 <= k < i ==> (#[trigger] r@[k]) == k,
        decreases n - i,
    {
        r.push(i);
        i = i + 1;
    }
    let mut i: usize = 1;
    while i < n
        invariant
            n == keys@.len(),
            r@.len() == n,
            1 <= i || n == 0,
            i <= n || (n == 0 && i == 1),
            forall|a: int| 0 <= a < n ==> (#[trigger] r@[a]) < n,
            forall|a: int, b: int| 0 <= a < b < n ==> r@[a] != r@[b],
            forall|a: int, b: int| 0 <= a < b < i ==> keys@[r@[a] as int] <= keys@[r@[b] as int],
        decreases n - i,
    {
        let mut j: usize = i;
        while j > 0
            invariant
                0 <= j <= i,
                i < n,
                n == keys@.len(),
                r@.len() == n,
                forall|a: int| 0 <= a < n ==> (#[trigger] r@[a]) < n,
                forall|a: int, b: int| 0 <= a < b < n ==> r@[a] != r@[b],
                forall|a: int, b: int|
                    0 <= a < b <= i && b != j ==> keys@[r@[a] as int] <= keys@[r@[b] as int],
                j < i ==> keys@[r@[j as int] as int] <= keys@[r@[j + 1] as int],
            ensures
                0 <= j <= i,
                n == keys@.len(),
                r@.len() == n,
                forall|a: int| 0 <= a < n ==> (#[trigger] r@[a]) < n,
                forall|a: int, b: int| 0 <= a < b < n ==> r@[a] != r@[b],
                forall|a: int, b: int|
                    0 <= a < b <= i && b != j ==> keys@[r@[a] as int] <= keys@[r@[b] as int],
                j < i ==> keys@[r@[j as int] as int] <= keys@[r@[j + 1] as int],
                j > 0 ==> keys@[r@[j - 1] as int] <= keys@[r@[j as int] as int],
            decreases j,
        {
            let ra: usize = r[j - 1];
            let rb: usize = r[j];
            if keys[ra] <= keys[rb] {
                break;
            }
            r.set(j - 1, rb);
            r.set(j, ra);
            j = j - 1;
        }
        proof {
            assert forall|a: int, b: int| 0 <= a < b < i + 1 implies keys@[r@[a] as int]
                <= keys@[r@[b] as int] by {
                if b == j && j > 0 {
                    assert(keys@[r@[j - 1] as int] <= keys@[r@[j as int] as int]);
                }
            }
        }
        i = i + 1;
    }
    r
}

} // verus!
