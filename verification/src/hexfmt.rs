use vstd::prelude::*;
use vstd::string::StringExecFns;

verus! {

/// The lowercase hex digit for a value below 16.
pub open spec fn hex_digit_char(n: u8) -> char {
    if n == 0 {
        '0'
    } else if n == 1 {
        '1'
    } else if n == 2 {
        '2'
    } else if n == 3 {
        '3'
    } else if n == 4 {
        '4'
    } else if n == 5 {
        '5'
    } else if n == 6 {
        '6'
    } else if n == 7 {
        '7'
    } else if n == 8 {
        '8'
    } else if n == 9 {
        '9'
    } else if n == 10 {
        'a'
    } else if n == 11 {
        'b'
    } else if n == 12 {
        'c'
    } else if n == 13 {
        'd'
    } else if n == 14 {
        'e'
    } else {
        'f'
    }
}

/// Lowercase hex encoding of a byte sequence: two digits per byte, no
/// prefix.
pub open spec fn hex_of(bs: Seq<u8>) -> Seq<char>
    decreases bs.len(),
{
    if bs.len() == 0 {
        Seq::empty()
    } else {
        hex_of(bs.drop_last()) + seq![
            hex_digit_char(bs.last() / 16),
            hex_digit_char(bs.last() % 16),
        ]
    }
}

/// Hex encoding with the conventional `0x` prefix.
pub open spec fn hex_prefixed_of(bs: Seq<u8>) -> Seq<char> {
    seq!['0', 'x'] + hex_of(bs)
}

fn hex_digit_str(n: u8) -> (r: &'static str)
    requires
        n < 16,
    ensures
        r@ == seq![hex_digit_char(n)],
{
    proof {
        reveal_strlit("0");
        reveal_strlit("1");
        reveal_strlit("2");
        reveal_strlit("3");
        reveal_strlit("4");
        reveal_strlit("5");
        reveal_strlit("6");
        reveal_strlit("7");
        reveal_strlit("8");
        reveal_strlit("9");
        reveal_strlit("a");
        reveal_strlit("b");
        reveal_strlit("c");
        reveal_strlit("d");
        reveal_strlit("e");
        reveal_strlit("f");
    }
    let r: &'static str = if n == 0 {
        "0"
    } else if n == 1 {
        "1"
    } else if n == 2 {
        "2"
    } else if n == 3 {
        "3"
    } else if n == 4 {
        "4"
    } else if n == 5 {
        "5"
    } else if n == 6 {
        "6"
    } else if n == 7 {
        "7"
    } else if n == 8 {
        "8"
    } else if n == 9 {
        "9"
    } else if n == 10 {
        "a"
    } else if n == 11 {
        "b"
    } else if n == 12 {
        "c"
    } else if n == 13 {
        "d"
    } else if n == 14 {
        "e"
    } else {
        "f"
    };
    proof {
        assert(r@ =~= seq![hex_digit_char(n)]);
    }
    r
}

/// Lowercase hex encoding of a byte slice, two digits per byte.
#[verifier::loop_isolation(false)]
pub fn hex_encode(bs: &[u8]) -> (r: String)
    ensures
        r@ == hex_of(bs@),
{
    let mut out = String::new();
    let mut i: usize = 0;
    while i < bs.len()
        invariant
            i <= bs@.len(),
            out@ == hex_of(bs@.take(i as int)),
        decreases bs@.len() - i,
    {
        let b = bs[i];
        out.append(hex_digit_str(b / 16));
        out.append(hex_digit_str(b % 16));
        proof {
            let t = bs@.take(i + 1int);
            assert(t.drop_last() =~= bs@.take(i as int));
            assert(t.last() == bs@[i as int]);
        }
        i = i + 1;
    }
    proof {
        assert(bs@.take(bs@.len() as int) =~= bs@);
    }
    out
}

pub open spec fn is_hex_digit_char(c: char) -> bool {
    ('0' <= c && c <= '9') || ('a' <= c && c <= 'f') || ('A' <= c && c <= 'F')
}

/// The numeric value of one hex digit.
pub open spec fn hex_digit_val(c: char) -> u8 {
    if '0' <= c && c <= '9' {
        (c as u32 - 48) as u8
    } else if 'a' <= c && c <= 'f' {
        (c as u32 - 87) as u8
    } else {
        (c as u32 - 55) as u8
    }
}

/// Hex text may carry the conventional `0x` prefix; the digits follow.
pub open spec fn strip_hex_prefix(s: Seq<char>) -> Seq<char> {
    if s.len() >= 2 && s[0] == '0' && (s[1] == 'x' || s[1] == 'X') {
        s.skip(2)
    } else {
        s
    }
}

pub open spec fn all_hex(s: Seq<char>) -> bool {
    forall|i: int| 0 <= i < s.len() ==> is_hex_digit_char(#[trigger] s[i])
}

/// The bytes spelled by an even-length sequence of hex digits, two
/// digits per byte, high digit first.
pub open spec fn hex_bytes_of(s: Seq<char>) -> Seq<u8> {
    Seq::new((s.len() / 2) as nat, |i: int| ((hex_digit_val(s[2 * i]) as int) * 16 + (hex_digit_val(
        s[2 * i + 1],
    ) as int)) as u8)
}

fn hex_val(c: char) -> (r: Option<u8>)
    ensures
        match r {
            Some(v) => is_hex_digit_char(c) && v == hex_digit_val(c) && v < 16,
            None => !is_hex_digit_char(c),
        },
{
    if c >= '0' && c <= '9' {
        Some((c as u32 - 48) as u8)
    } else if c >= 'a' && c <= 'f' {
        Some((c as u32 - 87) as u8)
    } else if c >= 'A' && c <= 'F' {
        Some((c as u32 - 55) as u8)
    } else {
        None
    }
}

/// Decodes hex text (with an optional `0x` prefix) into bytes:
/// succeeds exactly when an even number of hex digits follows the
/// prefix, and then returns the bytes they spell.
#[verifier::loop_isolation(false)]
pub fn hex_decode(s: &str) -> (r: Option<Vec<u8>>)
    ensures
        ({
            let body = strip_hex_prefix(s@);
            match r {
                Some(bs) => body.len() % 2 == 0 && all_hex(body) && bs@ == hex_bytes_of(body),
                None => body.len() % 2 != 0 || !all_hex(body),
            }
        }),
{
    let mut chars: Vec<char> = Vec::new();
    let mut it = s.chars();
    let ghost mut seen: int = 0;
    proof {
        vstd::string::axiom_spec_iter(s);
    }
    loop
        invariant
            0 <= seen <= s@.len(),
            vstd::std_specs::iter::IteratorSpec::remaining(&it) =~= s@.skip(seen),
            vstd::std_specs::iter::IteratorSpec::obeys_prophetic_iter_laws(&it),
            chars@ =~= s@.take(seen),
        decreases s@.len() - seen,
    {
        let ghost rem = vstd::std_specs::iter::IteratorSpec::remaining(&it);
        match it.next() {
            Some(c) => {
                chars.push(c);
                proof {
                    assert(c == s@[seen]);
                    assert(s@.take(seen + 1) =~= s@.take(seen).push(s@[seen]));
                    assert(s@.skip(seen).drop_first() =~= s@.skip(seen + 1));
                    seen = seen + 1;
                }
            },
            None => {
                proof {
                    assert(rem.len() == 0);
                    assert(s@.skip(seen).len() == 0);
                    assert(s@.take(seen) =~= s@);
                }
                break ;
            },
        }
    }
    let start: usize = if chars.len() >= 2 && chars[0] == '0' && (chars[1] == 'x' || chars[1]
        == 'X') {
        2
    } else {
        0
    };
    let ghost body = strip_hex_prefix(s@);
    proof {
        assert(body =~= chars@.skip(start as int));
    }
    if (chars.len() - start) % 2 != 0 {
        return None;
    }
    let mut out: Vec<u8> = Vec::new();
    let mut i: usize = start;
    while i < chars.len()
        invariant
            start <= i <= chars@.len(),
            (i - start) % 2 == 0,
            out@.len() == (i - start) / 2,
            forall|j: int| 0 <= j < i - start ==> is_hex_digit_char(#[trigger] body[j]),
            forall|k: int|
                0 <= k < out@.len() ==> #[trigger] out@[k] == ((hex_digit_val(body[2 * k]) as int)
                    * 16 + (hex_digit_val(body[2 * k + 1]) as int)) as u8,
        decreases chars@.len() - i,
    {
        let hi = match hex_val(chars[i]) {
            Some(v) => v,
            None => {
                proof {
                    assert(body[i - start] == chars@[i as int]);
                    assert(!is_hex_digit_char(body[i - start]));
                }
                return None;
            },
        };
        let lo = match hex_val(chars[i + 1]) {
            Some(v) => v,
            None => {
                proof {
                    assert(body[i + 1 - start] == chars@[i + 1int]);
                    assert(!is_hex_digit_char(body[i + 1 - start]));
                }
                return None;
            },
        };
        out.push(hi * 16 + lo);
        proof {
            assert(body[i - start] == chars@[i as int]);
            assert(body[i + 1 - start] == chars@[i + 1int]);
        }
        i = i + 2;
    }
    proof {
        assert(out@ =~= hex_bytes_of(body));
    }
    Some(out)
}

/// Hex encoding with the `0x` prefix.
pub fn hex_encode_prefixed(bs: &[u8]) -> (r: String)
    ensures
        r@ == hex_prefixed_of(bs@),
{
    proof {
        reveal_strlit("0x");
    }
    let mut out = String::from_str("0x");
    proof {
        assert(out@ =~= seq!['0', 'x']);
    }
    let rest = hex_encode(bs);
    out.append(rest.as_str());
    out
}

} // verus!
