//! Checks on the arguments of the server's own commands.

use vstd::prelude::*;
use crate::text::chars_of;

verus! {

/// The value of `c` as a digit in `radix`, if it is one. Letters count in
/// either case.
pub open spec fn digit_of(c: char, radix: nat) -> Option<nat> {
    let n = c as u32;
    let v: int = if 0x30 <= n <= 0x39 {
        n - 0x30
    } else if 0x61 <= n <= 0x7A {
        n - 0x61 + 10
    } else if 0x41 <= n <= 0x5A {
        n - 0x41 + 10
    } else {
        radix as int
    };
    if v < radix {
        Some(v as nat)
    } else {
        None
    }
}

/// Whether every character of `s` is a digit in `radix`.
pub open spec fn all_digits(s: Seq<char>, radix: nat) -> bool {
    forall|i: int| 0 <= i < s.len() ==> digit_of(#[trigger] s[i], radix) is Some
}

/// The number that the digits `s` write in `radix`.
pub open spec fn value_of(s: Seq<char>, radix: nat) -> nat
    decreases s.len(),
{
    if s.len() == 0 {
        0
    } else {
        value_of(s.drop_last(), radix) * radix + match digit_of(s.last(), radix) {
            Some(d) => d,
            None => 0,
        }
    }
}

/// What is left of `s` once one leading plus sign is taken away.
pub open spec fn unsigned_part(s: Seq<char>) -> Seq<char> {
    if s.len() > 0 && s[0] == '+' {
        s.drop_first()
    } else {
        s
    }
}

/// Whether `s` writes a number of at most `max` in `radix`: an optional
/// plus sign, then one digit or more.
pub open spec fn is_number(s: Seq<char>, radix: nat, max: nat) -> bool {
    let digits = unsigned_part(s);
    digits.len() > 0 && all_digits(digits, radix) && value_of(digits, radix) <= max
}

proof fn lemma_value_grows(s: Seq<char>, radix: nat, n: int)
    requires
        0 <= n <= s.len(),
        radix >= 1,
    ensures
        value_of(s.take(n), radix) <= value_of(s, radix),
    decreases s.len() - n,
{
    if n == s.len() {
        assert(s.take(n) =~= s);
    } else {
        lemma_value_grows(s, radix, n + 1);
        assert(s.take(n + 1).drop_last() =~= s.take(n));
        let v = value_of(s.take(n), radix);
        assert(v * radix >= v) by (nonlinear_arith)
            requires
                radix >= 1,
                v >= 0,
        ;
    }
}

fn digit_value(c: char, radix: u32) -> (r: Option<u32>)
    requires
        radix <= 36,
    ensures
        match r {
            Some(d) => digit_of(c, radix as nat) == Some(d as nat) && d < radix,
            None => digit_of(c, radix as nat) is None,
        },
{
    let n: u32 = c as u32;
    let v: u32 = if 0x30 <= n && n <= 0x39 {
        n - 0x30
    } else if 0x61 <= n && n <= 0x7A {
        n - 0x61 + 10
    } else if 0x41 <= n && n <= 0x5A {
        n - 0x41 + 10
    } else {
        radix
    };
    if v < radix {
        Some(v)
    } else {
        None
    }
}

/// Whether `s[from..to]` writes a number of at most `max` in `radix`.
fn writes_number(s: &Vec<char>, from: usize, to: usize, radix: u32, max: u32) -> (r: bool)
    requires
        from <= to <= s@.len(),
        1 <= radix <= 36,
        max <= 0xFFFF,
    ensures
        r == is_number(s@.subrange(from as int, to as int), radix as nat, max as nat),
{
    let ghost part = s@.subrange(from as int, to as int);
    let start: usize = if from < to && s[from] == '+' {
        from + 1
    } else {
        from
    };
    let ghost digits = unsigned_part(part);
    assert(digits =~= s@.subrange(start as int, to as int));
    if start == to {
        return false;
    }
    let mut value: u32 = 0;
    let mut i: usize = start;
    assert(digits.take(0) =~= Seq::<char>::empty());
    while i < to
        invariant
            start <= i <= to,
            to <= s@.len(),
            1 <= radix <= 36,
            max <= 0xFFFF,
            digits == s@.subrange(start as int, to as int),
            digits == unsigned_part(s@.subrange(from as int, to as int)),
            from <= start < to,
            all_digits(digits.take(i - start), radix as nat),
            value == value_of(digits.take(i - start), radix as nat),
            value <= max,
        decreases to - i,
    {
        let ghost before = digits.take(i - start);
        let ghost after = digits.take(i - start + 1);
        proof {
            assert(after.drop_last() =~= before);
            assert(after.last() == s@[i as int]);
        }
        match digit_value(s[i], radix) {
            None => {
                assert(digit_of(digits[i - start], radix as nat) is None);
                return false;
            },
            Some(d) => {
                assert(value * radix + d <= 0xFFFF * 36 + 36) by (nonlinear_arith)
                    requires
                        value <= 0xFFFF,
                        radix <= 36,
                        d < radix,
                ;
                let next: u32 = value * radix + d;
                if next > max {
                    proof {
                        lemma_value_grows(digits, radix as nat, i - start + 1);
                    }
                    return false;
                }
                proof {
                    assert forall|k: int| 0 <= k < after.len() implies digit_of(
                        #[trigger] after[k],
                        radix as nat,
                    ) is Some by {
                        if k < before.len() {
                            assert(after[k] == before[k]);
                        }
                    }
                }
                value = next;
            },
        }
        i = i + 1;
    }
    assert(digits.take(i - start) =~= digits);
    true
}

/// The parts of the first `n` characters of `s` that `sep` has closed, and
/// the part that is open.
pub open spec fn parts_state(s: Seq<char>, sep: char, n: int) -> (Seq<Seq<char>>, Seq<char>)
    decreases n,
{
    if n <= 0 || n > s.len() {
        (Seq::empty(), Seq::empty())
    } else {
        let (done, current) = parts_state(s, sep, n - 1);
        if s[n - 1] == sep {
            (done.push(current), Seq::empty())
        } else {
            (done, current.push(s[n - 1]))
        }
    }
}

/// The parts of `s` between the separators `sep`. There is always one
/// part more than there are separators; parts may be empty.
pub open spec fn parts_of(s: Seq<char>, sep: char) -> Seq<Seq<char>> {
    let (done, current) = parts_state(s, sep, s.len() as int);
    done.push(current)
}

/// The parts of a text as they lie in a list of characters: each as the
/// places where it begins and ends.
fn split_places(s: &Vec<char>, sep: char) -> (r: Vec<(usize, usize)>)
    ensures
        r@.len() == parts_of(s@, sep).len(),
        forall|k: int|
            0 <= k < r@.len() ==> (#[trigger] r@[k]).0 <= r@[k].1 <= s@.len() && s@.subrange(
                r@[k].0 as int,
                r@[k].1 as int,
            ) == parts_of(s@, sep)[k],
{
    let mut out: Vec<(usize, usize)> = Vec::new();
    let mut begin: usize = 0;
    let mut i: usize = 0;
    assert(s@.subrange(0, 0) =~= Seq::<char>::empty());
    while i < s.len()
        invariant
            begin <= i <= s@.len(),
            out@.len() == parts_state(s@, sep, i as int).0.len(),
            forall|k: int|
                0 <= k < out@.len() ==> (#[trigger] out@[k]).0 <= out@[k].1 <= s@.len() && s@.subrange(
                    out@[k].0 as int,
                    out@[k].1 as int,
                ) == parts_state(s@, sep, i as int).0[k],
            s@.subrange(begin as int, i as int) == parts_state(s@, sep, i as int).1,
        decreases s@.len() - i,
    {
        if s[i] == sep {
            out.push((begin, i));
            begin = i + 1;
            assert(s@.subrange(begin as int, begin as int) =~= Seq::<char>::empty());
        } else {
            assert(s@.subrange(begin as int, i as int).push(s@[i as int]) =~= s@.subrange(
                begin as int,
                i + 1,
            ));
        }
        i = i + 1;
    }
    out.push((begin, i));
    out
}

/// Whether `ip` has the form of an IPv4 address: four parts between dots,
/// each a decimal number of at most 255.
pub open spec fn is_ipv4_form(ip: Seq<char>) -> bool {
    let parts = parts_of(ip, '.');
    parts.len() == 4 && forall|k: int| 0 <= k < parts.len() ==> is_number(#[trigger] parts[k], 10, 255)
}

/// Whether `ip` has the loose form of an IPv6 address: it holds a colon,
/// and each part between colons is empty or a hexadecimal number of at
/// most four digits' worth.
pub open spec fn is_ipv6_form(ip: Seq<char>) -> bool {
    let parts = parts_of(ip, ':');
    ip.contains(':') && forall|k: int|
        0 <= k < parts.len() ==> (#[trigger] parts[k]).len() == 0 || is_number(parts[k], 16, 0xFFFF)
}

/// Whether `ip` has the form of an address. A text of four parts between
/// dots is judged as IPv4 alone.
pub open spec fn is_address_form(ip: Seq<char>) -> bool {
    if parts_of(ip, '.').len() == 4 {
        is_ipv4_form(ip)
    } else {
        is_ipv6_form(ip)
    }
}

/// Whether `ip` has the form of an IP address.
pub fn is_valid_ip(ip: &str) -> (r: bool)
    ensures
        r == is_address_form(ip@),
{
    let s = chars_of(ip);
    let dotted = split_places(&s, '.');
    if dotted.len() == 4 {
        let mut k: usize = 0;
        while k < dotted.len()
            invariant
                k <= dotted@.len(),
                s@ == ip@,
                dotted@.len() == 4,
                dotted@.len() == parts_of(s@, '.').len(),
                forall|j: int|
                    0 <= j < dotted@.len() ==> (#[trigger] dotted@[j]).0 <= dotted@[j].1 <= s@.len()
                        && s@.subrange(dotted@[j].0 as int, dotted@[j].1 as int) == parts_of(
                        s@,
                        '.',
                    )[j],
                forall|j: int| 0 <= j < k ==> is_number(#[trigger] parts_of(s@, '.')[j], 10, 255),
            decreases dotted@.len() - k,
        {
            let (from, to) = dotted[k];
            assert(dotted@[k as int].0 == from && dotted@[k as int].1 == to);
            if !writes_number(&s, from, to, 10, 255) {
                assert(!is_number(parts_of(s@, '.')[k as int], 10, 255));
                return false;
            }
            k = k + 1;
        }
        return true;
    }
    let coloned = split_places(&s, ':');
    proof {
        lemma_parts_count(s@, ':', s@.len() as int);
        assert(s@.take(s@.len() as int) =~= s@);
    }
    if coloned.len() < 2 {
        return false;
    }
    let mut k: usize = 0;
    while k < coloned.len()
        invariant
            k <= coloned@.len(),
            s@ == ip@,
            parts_of(s@, '.').len() != 4,
            s@.contains(':'),
            coloned@.len() == parts_of(s@, ':').len(),
            forall|j: int|
                0 <= j < coloned@.len() ==> (#[trigger] coloned@[j]).0 <= coloned@[j].1 <= s@.len()
                    && s@.subrange(coloned@[j].0 as int, coloned@[j].1 as int) == parts_of(s@, ':')[j],
            forall|j: int|
                0 <= j < k ==> (#[trigger] parts_of(s@, ':')[j]).len() == 0 || is_number(
                    parts_of(s@, ':')[j],
                    16,
                    0xFFFF,
                ),
        decreases coloned@.len() - k,
    {
        let (from, to) = coloned[k];
        assert(coloned@[k as int].0 == from && coloned@[k as int].1 == to);
        if from < to && !writes_number(&s, from, to, 16, 0xFFFF) {
            assert(parts_of(s@, ':')[k as int].len() > 0);
            assert(!is_number(parts_of(s@, ':')[k as int], 16, 0xFFFF));
            return false;
        }
        k = k + 1;
    }
    true
}

/// A text holds a separator just when it has more than one part.
proof fn lemma_parts_count(s: Seq<char>, sep: char, n: int)
    requires
        0 <= n <= s.len(),
    ensures
        parts_state(s, sep, n).0.len() > 0 <==> s.take(n).contains(sep),
    decreases n,
{
    if n > 0 {
        lemma_parts_count(s, sep, n - 1);
        let shorter = s.take(n - 1);
        let longer = s.take(n);
        assert(longer.drop_last() =~= shorter);
        if shorter.contains(sep) {
            let i = choose|i: int| 0 <= i < shorter.len() && shorter[i] == sep;
            assert(longer[i] == sep);
        }
        if s[n - 1] == sep {
            assert(longer[n - 1] == sep);
        }
        if longer.contains(sep) {
            let i = choose|i: int| 0 <= i < longer.len() && longer[i] == sep;
            if i < n - 1 {
                assert(shorter[i] == sep);
            }
        }
    } else {
        assert(s.take(0) =~= Seq::<char>::empty());
    }
}

} // verus!
