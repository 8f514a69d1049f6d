use vstd::prelude::*;

verus! {

/// ASCII whitespace: tab, line feed, vertical tab, form feed, carriage return, space.
pub open spec fn is_blank(b: u8) -> bool {
    b == 32 || (9 <= b && b <= 13)
}

/// The bytes without leading whitespace.
pub open spec fn trim_start(s: Seq<u8>) -> Seq<u8>
    decreases s.len(),
{
    if s.len() > 0 && is_blank(s[0]) {
        trim_start(s.skip(1))
    } else {
        s
    }
}

/// The bytes without trailing whitespace.
pub open spec fn trim_end(s: Seq<u8>) -> Seq<u8>
    decreases s.len(),
{
    if s.len() > 0 && is_blank(s.last()) {
        trim_end(s.drop_last())
    } else {
        s
    }
}

/// The bytes without leading and trailing whitespace.
pub open spec fn trim(s: Seq<u8>) -> Seq<u8> {
    trim_end(trim_start(s))
}

/// The pieces already closed and the piece still open after reading `s`
/// left to right, cutting at each `sep`.
pub open spec fn split_acc(s: Seq<u8>, sep: u8) -> (Seq<Seq<u8>>, Seq<u8>)
    decreases s.len(),
{
    if s.len() == 0 {
        (Seq::empty(), Seq::empty())
    } else {
        let (done, cur) = split_acc(s.drop_last(), sep);
        if s.last() == sep {
            (done.push(cur), Seq::empty())
        } else {
            (done, cur.push(s.last()))
        }
    }
}

/// The pieces between the separators: one more than there are separators.
pub open spec fn split(s: Seq<u8>, sep: u8) -> Seq<Seq<u8>> {
    split_acc(s, sep).0.push(split_acc(s, sep).1)
}

/// The pieces joined end to end.
pub open spec fn concat(parts: Seq<Seq<u8>>) -> Seq<u8>
    decreases parts.len(),
{
    if parts.len() == 0 {
        Seq::empty()
    } else {
        concat(parts.drop_last()) + parts.last()
    }
}

/// The byte strings that a list of byte vectors holds.
pub open spec fn views(v: Seq<Vec<u8>>) -> Seq<Seq<u8>> {
    v.map_values(|x: Vec<u8>| x@)
}

/// A decimal digit.
pub open spec fn is_digit(b: u8) -> bool {
    '0' as u8 <= b && b <= '9' as u8
}

/// The value of a digit in base 10 or 16 (either case), if it is one.
pub open spec fn digit_value(b: u8, radix: nat) -> Option<nat> {
    if is_digit(b) {
        Some((b - '0' as u8) as nat)
    } else if radix == 16 && 'a' as u8 <= b && b <= 'f' as u8 {
        Some((b - 'a' as u8 + 10) as nat)
    } else if radix == 16 && 'A' as u8 <= b && b <= 'F' as u8 {
        Some((b - 'A' as u8 + 10) as nat)
    } else {
        None
    }
}

/// Every byte is a digit of the base.
pub open spec fn all_digits(s: Seq<u8>, radix: nat) -> bool {
    forall|i: int| 0 <= i < s.len() ==> (#[trigger] digit_value(s[i], radix)) is Some
}

/// The number that a run of digits stands for.
pub open spec fn digits_value(s: Seq<u8>, radix: nat) -> nat
    decreases s.len(),
{
    if s.len() == 0 {
        0
    } else {
        digits_value(s.drop_last(), radix) * radix + digit_value(s.last(), radix).unwrap()
    }
}

/// Starts with `0x`.
pub open spec fn has_hex_prefix(s: Seq<u8>) -> bool {
    s.len() >= 2 && s[0] == '0' as u8 && s[1] == 'x' as u8
}

/// An unsigned integer: `0x` and hex digits, or decimal digits.
pub open spec fn parse_number(s: Seq<u8>) -> Option<nat> {
    if has_hex_prefix(s) {
        let d = s.skip(2);
        if d.len() > 0 && all_digits(d, 16) {
            Some(digits_value(d, 16))
        } else {
            None
        }
    } else if s.len() > 0 && all_digits(s, 10) {
        Some(digits_value(s, 10))
    } else {
        None
    }
}

/// An unsigned integer that fits in 16 bits.
pub open spec fn parse_u16(s: Seq<u8>) -> Option<u16> {
    match parse_number(s) {
        Some(v) => if v <= 0xFFFF {
            Some(v as u16)
        } else {
            None
        },
        None => None,
    }
}

/// An unsigned integer that fits in 64 bits.
pub open spec fn parse_u64(s: Seq<u8>) -> Option<u64> {
    match parse_number(s) {
        Some(v) => if v <= u64::MAX {
            Some(v as u64)
        } else {
            None
        },
        None => None,
    }
}

/// A register name: `r0`..`r7` (indices 0..7), `sp` (8), `c0` (9) or `c1`
/// (10). Whitespace around the name is ignored; any other name is malformed.
pub open spec fn register_number(name: Seq<u8>) -> Option<u16> {
    let n = trim(name);
    if n == seq!['s' as u8, 'p' as u8] {
        Some(8)
    } else if n.len() == 2 && n[0] == 'r' as u8 && '0' as u8 <= n[1] && n[1] <= '7' as u8 {
        Some((n[1] - '0' as u8) as u16)
    } else if n.len() == 2 && n[0] == 'c' as u8 && '0' as u8 <= n[1] && n[1] <= '1' as u8 {
        Some((n[1] - '0' as u8 + 9) as u16)
    } else {
        None
    }
}

/// True when the two byte strings are equal.
pub fn is_word(s: &[u8], w: &[u8]) -> (r: bool)
    ensures
        r == (s@ == w@),
{
    if s.len() != w.len() {
        return false;
    }
    let mut i: usize = 0;
    while i < s.len()
        invariant
            s@.len() == w@.len(),
            i <= s@.len(),
            forall|k: int| 0 <= k < i ==> s@[k] == w@[k],
        decreases s.len() - i,
    {
        if s[i] != w[i] {
            return false;
        }
        i = i + 1;
    }
    assert(s@ =~= w@);
    true
}

/// A copy of bytes `a..b`.
pub fn copy_range(s: &[u8], a: usize, b: usize) -> (r: Vec<u8>)
    requires
        a <= b <= s@.len(),
    ensures
        r@ == s@.subrange(a as int, b as int),
{
    let mut r: Vec<u8> = Vec::new();
    let mut i: usize = a;
    while i < b
        invariant
            a <= i <= b <= s@.len(),
            r@ == s@.subrange(a as int, i as int),
        decreases b - i,
    {
        r.push(s[i]);
        i = i + 1;
        assert(r@ =~= s@.subrange(a as int, i as int));
    }
    r
}

fn is_blank_byte(b: u8) -> (r: bool)
    ensures
        r == is_blank(b),
{
    b == 32 || (9 <= b && b <= 13)
}

/// The bytes without leading and trailing whitespace.
pub fn trim_bytes(s: &[u8]) -> (r: Vec<u8>)
    ensures
        r@ == trim(s@),
{
    let n: usize = s.len();
    let mut a: usize = 0;
    assert(s@.skip(0) =~= s@);
    while a < n && is_blank_byte(s[a])
        invariant
            n == s@.len(),
            a <= n,
            trim_start(s@) == trim_start(s@.skip(a as int)),
        decreases n - a,
    {
        assert(s@.skip(a as int).skip(1) =~= s@.skip(a + 1));
        a = a + 1;
    }
    let ghost t = s@.skip(a as int);
    assert(trim_start(s@) == t);
    let mut b: usize = n;
    assert(t.take((b - a) as int) =~= t);
    while b > a && is_blank_byte(s[b - 1])
        invariant
            n == s@.len(),
            a <= b <= n,
            t == s@.skip(a as int),
            trim_end(t) == trim_end(t.take(b - a)),
        decreases b - a,
    {
        assert(t.take(b - a).drop_last() =~= t.take(b - 1 - a));
        b = b - 1;
    }
    assert(t.take(b - a) =~= s@.subrange(a as int, b as int));
    copy_range(s, a, b)
}

/// The pieces of `s` between the bytes equal to `sep`.
pub fn split_bytes(s: &[u8], sep: u8) -> (r: Vec<Vec<u8>>)
    ensures
        views(r@) == split(s@, sep),
        r@.len() >= 1,
{
    let mut done: Vec<Vec<u8>> = Vec::new();
    let mut cur: Vec<u8> = Vec::new();
    let mut i: usize = 0;
    assert(s@.take(0) =~= Seq::<u8>::empty());
    while i < s.len()
        invariant
            i <= s@.len(),
            (views(done@), cur@) == split_acc(s@.take(i as int), sep),
        decreases s.len() - i,
    {
        assert(s@.take(i + 1).drop_last() =~= s@.take(i as int));
        let b = s[i];
        if b == sep {
            let piece = cur;
            cur = Vec::new();
            done.push(piece);
        } else {
            cur.push(b);
        }
        i = i + 1;
        assert(views(done@) =~= split_acc(s@.take(i as int), sep).0);
        assert(cur@ =~= split_acc(s@.take(i as int), sep).1);
    }
    assert(s@.take(s@.len() as int) =~= s@);
    done.push(cur);
    assert(views(done@) =~= split(s@, sep));
    done
}

/// The pieces joined end to end.
pub fn concat_bytes(parts: &[Vec<u8>]) -> (r: Vec<u8>)
    ensures
        r@ == concat(views(parts@)),
{
    let mut r: Vec<u8> = Vec::new();
    let mut k: usize = 0;
    while k < parts.len()
        invariant
            k <= parts@.len(),
            r@ == concat(views(parts@.take(k as int))),
        decreases parts.len() - k,
    {
        assert(views(parts@.take(k + 1)).drop_last() =~= views(parts@.take(k as int)));
        let piece = &parts[k];
        let mut j: usize = 0;
        let ghost before = r@;
        while j < piece.len()
            invariant
                j <= piece@.len(),
                r@ == before + piece@.take(j as int),
            decreases piece.len() - j,
        {
            r.push(piece[j]);
            j = j + 1;
            assert(r@ =~= before + piece@.take(j as int));
        }
        assert(piece@.take(j as int) =~= piece@);
        k = k + 1;
    }
    assert(parts@.take(parts@.len() as int) =~= parts@);
    r
}

fn digit_of(b: u8, radix: u64) -> (r: Option<u64>)
    requires
        radix == 10 || radix == 16,
    ensures
        match digit_value(b, radix as nat) {
            Some(d) => r == Some(d as u64),
            None => r is None,
        },
{
    if '0' as u8 <= b && b <= '9' as u8 {
        Some((b - '0' as u8) as u64)
    } else if radix == 16 && 'a' as u8 <= b && b <= 'f' as u8 {
        Some((b - 'a' as u8 + 10) as u64)
    } else if radix == 16 && 'A' as u8 <= b && b <= 'F' as u8 {
        Some((b - 'A' as u8 + 10) as u64)
    } else {
        None
    }
}

/// The value of the digits from `from` on, and whether it is past 64 bits
/// (the value is then not kept); `None` when a byte there is no digit.
fn parse_digits(s: &[u8], from: usize, radix: u64) -> (r: Option<(u64, bool)>)
    requires
        from <= s@.len(),
        radix == 10 || radix == 16,
    ensures
        match r {
            Some((v, over)) => all_digits(s@.skip(from as int), radix as nat) && over == (
            digits_value(s@.skip(from as int), radix as nat) > u64::MAX) && (!over ==> v
                == digits_value(s@.skip(from as int), radix as nat)),
            None => !all_digits(s@.skip(from as int), radix as nat),
        },
{
    let mut acc: u64 = 0;
    let mut over: bool = false;
    let mut i: usize = from;
    assert(s@.subrange(from as int, from as int) =~= Seq::<u8>::empty());
    while i < s.len()
        invariant
            from <= i <= s@.len(),
            radix == 10 || radix == 16,
            all_digits(s@.subrange(from as int, i as int), radix as nat),
            over == (digits_value(s@.subrange(from as int, i as int), radix as nat) > u64::MAX),
            !over ==> acc == digits_value(s@.subrange(from as int, i as int), radix as nat),
        decreases s.len() - i,
    {
        let ghost prefix = s@.subrange(from as int, i as int);
        let ghost next = s@.subrange(from as int, i + 1);
        assert(next.drop_last() =~= prefix);
        let d = match digit_of(s[i], radix) {
            Some(d) => d,
            None => {
                assert(!all_digits(s@.skip(from as int), radix as nat)) by {
                    assert(s@.skip(from as int)[i - from] == s@[i as int]);
                }
                return None;
            },
        };
        let ghost v = digits_value(prefix, radix as nat);
        assert(digits_value(next, radix as nat) == v * radix + d);
        if over {
            assert(v * radix + d >= v) by (nonlinear_arith)
                requires
                    radix >= 1,
            ;
        } else if acc > (u64::MAX - d) / radix {
            if radix == 10 {
                assert(acc * 10 + d > u64::MAX);
            } else {
                assert(acc * 16 + d > u64::MAX);
            }
            over = true;
        } else {
            if radix == 10 {
                assert(acc * 10 + d <= u64::MAX);
            } else {
                assert(acc * 16 + d <= u64::MAX);
            }
            acc = acc * radix + d;
        }
        i = i + 1;
        assert forall|k: int| 0 <= k < next.len() implies (#[trigger] digit_value(next[k], radix as nat)) is Some by {
            if k < prefix.len() {
                assert(next[k] == prefix[k]);
            }
        }
    }
    assert(s@.subrange(from as int, s@.len() as int) =~= s@.skip(from as int));
    Some((acc, over))
}

/// Where the digits of an integer start, and their base.
fn digits_start(s: &[u8]) -> (r: (usize, u64))
    ensures
        has_hex_prefix(s@) ==> r == (2usize, 16u64),
        !has_hex_prefix(s@) ==> r == (0usize, 10u64),
{
    if s.len() >= 2 && s[0] == '0' as u8 && s[1] == 'x' as u8 {
        (2, 16)
    } else {
        (0, 10)
    }
}

/// An unsigned integer that fits in 16 bits: `0x` and hex digits, or decimal digits.
pub fn parse_int_from_string(s: &[u8]) -> (r: Option<u16>)
    ensures
        r == parse_u16(s@),
{
    let (from, radix) = digits_start(s);
    if s.len() <= from {
        return None;
    }
    assert(s@.skip(0) =~= s@);
    match parse_digits(s, from, radix) {
        Some((v, over)) => if !over && v <= 0xFFFF {
            Some(v as u16)
        } else {
            None
        },
        None => None,
    }
}

/// An unsigned integer that fits in 64 bits: `0x` and hex digits, or decimal digits.
pub fn parse_u64_from_string(s: &[u8]) -> (r: Option<u64>)
    ensures
        r == parse_u64(s@),
{
    let (from, radix) = digits_start(s);
    if s.len() <= from {
        return None;
    }
    assert(s@.skip(0) =~= s@);
    match parse_digits(s, from, radix) {
        Some((v, over)) => if !over {
            Some(v)
        } else {
            None
        },
        None => None,
    }
}

/// The register index of a name: `r0`..`r7` are 0..7, `sp` is 8, `c0` and `c1` are 9 and 10.
pub fn reg_name_to_num(name: &[u8]) -> (r: Option<u16>)
    ensures
        r == register_number(name@),
{
    let n = trim_bytes(name);
    if n.len() != 2 {
        proof {
            if n@ == seq!['s' as u8, 'p' as u8] {
                assert(n@.len() == 2);
            }
        }
        return None;
    }
    let first: u8 = n[0];
    let second: u8 = n[1];
    if first == 's' as u8 && second == 'p' as u8 {
        assert(n@ =~= seq!['s' as u8, 'p' as u8]);
        return Some(8);
    }
    assert(n@ != seq!['s' as u8, 'p' as u8]);
    if first == 'r' as u8 && '0' as u8 <= second && second <= '7' as u8 {
        Some((second - '0' as u8) as u16)
    } else if first == 'c' as u8 && '0' as u8 <= second && second <= '1' as u8 {
        Some((second - '0' as u8 + 9) as u16)
    } else {
        None
    }
}

} // verus!
