//! Local paths: the keys by which charts are known.
//!
//! A chart that the user imported is kept under `custom/` and its file name;
//! one that was fetched from the remote catalogue under `download/` and the
//! name of its entry, which is its remote id in decimal. Any other local path
//! belongs to a chart that came with the program.

use vstd::prelude::*;
use vstd::utf8::*;
use crate::text::joined;

verus! {

/// The two storage areas in which charts are looked for.
#[derive(Clone, Copy, Debug, PartialEq, Eq, Structural)]
pub enum Area {
    /// Charts that the user imported.
    Imports,
    /// Charts fetched from the remote catalogue.
    Downloads,
}

/// What stands before the file name in the local path of an imported chart.
pub const IMPORT_PREFIX: &'static str = "custom/";

/// What stands before the entry name in the local path of a downloaded
/// chart.
pub const DOWNLOAD_PREFIX: &'static str = "download/";

/// The local path of the entry `name` of `area`.
pub open spec fn local_path_of(area: Area, name: Seq<char>) -> Seq<char> {
    match area {
        Area::Imports => IMPORT_PREFIX@ + name,
        Area::Downloads => DOWNLOAD_PREFIX@ + name,
    }
}

/// The local path of the entry `name` of `area`.
pub fn local_path_for(area: Area, name: &str) -> (r: String)
    ensures
        r@ == local_path_of(area, name@),
{
    match area {
        Area::Imports => joined(IMPORT_PREFIX, name),
        Area::Downloads => joined(DOWNLOAD_PREFIX, name),
    }
}

/// Two entries have the same local path only if they are of one area and
/// have one name.
pub proof fn lemma_local_path_injective(
    area: Area,
    name: Seq<char>,
    other: Area,
    other_name: Seq<char>,
)
    requires
        local_path_of(area, name) == local_path_of(other, other_name),
    ensures
        area == other,
        name == other_name,
{
    reveal_strlit("custom/");
    reveal_strlit("download/");
    let a = local_path_of(area, name);
    let b = local_path_of(other, other_name);
    assert(IMPORT_PREFIX@[0] == 'c');
    assert(DOWNLOAD_PREFIX@[0] == 'd');
    assert(a[0] == b[0]);
    match area {
        Area::Imports => {
            assert(a[0] == 'c');
            assert(other == Area::Imports);
            assert(name =~= a.subrange(IMPORT_PREFIX@.len() as int, a.len() as int));
            assert(other_name =~= b.subrange(IMPORT_PREFIX@.len() as int, b.len() as int));
        },
        Area::Downloads => {
            assert(a[0] == 'd');
            assert(other == Area::Downloads);
            assert(name =~= a.subrange(DOWNLOAD_PREFIX@.len() as int, a.len() as int));
            assert(other_name =~= b.subrange(DOWNLOAD_PREFIX@.len() as int, b.len() as int));
        },
    }
}

/// Where the chart `local_path` is kept: below `root`, after a slash.
pub open spec fn storage_path_of(root: Seq<char>, local_path: Seq<char>) -> Seq<char> {
    root + seq!['/'] + local_path
}

/// Where the chart `local_path` is kept below the charts directory `root`.
/// A chart whose storage path names nothing has left the machine.
pub fn storage_path(root: &str, local_path: &str) -> (r: String)
    ensures
        r@ == storage_path_of(root@, local_path@),
{
    proof {
        reveal_strlit("/");
        assert("/"@ =~= seq!['/']);
    }
    let mut out = joined(root, "/");
    out.append(local_path);
    out
}

/// Whether `c` is one of the ten decimal digits.
pub open spec fn is_digit(c: char) -> bool {
    '0' <= c <= '9'
}

/// The number that the digit `c` stands for.
pub open spec fn digit_value(c: char) -> int {
    c as int - 48
}

/// Whether `s` holds decimal digits only.
pub open spec fn all_digits(s: Seq<char>) -> bool {
    forall|i: int| 0 <= i < s.len() ==> is_digit(#[trigger] s[i])
}

/// The number that the digits `s` write in base ten.
pub open spec fn decimal(s: Seq<char>) -> int
    decreases s.len(),
{
    if s.len() == 0 {
        0
    } else {
        decimal(s.drop_last()) * 10 + digit_value(s.last())
    }
}

/// The digits of an entry name: the name without its sign, if it has one.
pub open spec fn unsigned_part(name: Seq<char>) -> Seq<char> {
    if name.len() > 0 && (name[0] == '-' || name[0] == '+') {
        name.drop_first()
    } else {
        name
    }
}

/// The number that an entry name writes: its digits in base ten, negated
/// after a minus sign.
pub open spec fn signed_decimal(name: Seq<char>) -> int {
    if name.len() > 0 && name[0] == '-' {
        -decimal(unsigned_part(name))
    } else {
        decimal(unsigned_part(name))
    }
}

/// The remote id that an entry name writes: an optional `+` or `-`, then one
/// or more decimal digits and nothing else, and the number fits 32 bits with
/// sign. Any other name writes none.
pub open spec fn remote_id(name: Seq<char>) -> Option<i32> {
    if unsigned_part(name).len() > 0 && all_digits(unsigned_part(name)) && i32::MIN
        <= signed_decimal(name) <= i32::MAX {
        Some(signed_decimal(name) as i32)
    } else {
        None
    }
}

/// The number written grows, or stays, with every digit read.
proof fn lemma_decimal_grows(s: Seq<char>, k: int)
    requires
        all_digits(s),
        0 <= k <= s.len(),
    ensures
        0 <= decimal(s.take(k)) <= decimal(s),
    decreases s.len(),
{
    if s.len() == 0 {
        assert(s.take(k) =~= s);
    } else if k == s.len() {
        assert(s.take(k) =~= s);
        lemma_decimal_grows(s.drop_last(), k - 1);
        assert(is_digit(s.last()));
    } else {
        assert(all_digits(s.drop_last())) by {
            assert forall|i: int| 0 <= i < s.drop_last().len() implies is_digit(
                #[trigger] s.drop_last()[i],
            ) by {
                assert(s.drop_last()[i] == s[i]);
            }
        }
        lemma_decimal_grows(s.drop_last(), k);
        assert(s.drop_last().take(k) =~= s.take(k));
        assert(is_digit(s.last()));
    }
}

/// Reads the remote id that an entry name writes.
pub fn parse_remote_id(name: &str) -> (r: Option<i32>)
    ensures
        r == remote_id(name@),
{
    let ghost digits = unsigned_part(name@);
    if !name.is_ascii() {
        proof {
            let i = choose|i: int|
                0 <= i < name@.len() && !('\0' <= #[trigger] name@[i] <= '\u{7f}');
            if digits.len() == name@.len() {
                assert(!is_digit(digits[i]));
            } else {
                assert(i > 0);
                assert(digits[i - 1] == name@[i]);
                assert(!is_digit(digits[i - 1]));
            }
        }
        return None;
    }
    proof {
        is_ascii_chars_encode_utf8(name@);
    }
    let bytes = name.as_bytes();
    let n = bytes.len();
    if n == 0 {
        return None;
    }
    let first = bytes[0];
    let negative = first == 45u8;
    let start: usize = if first == 45u8 || first == 43u8 {
        1
    } else {
        0
    };
    assert(digits =~= name@.skip(start as int));
    if start == n {
        return None;
    }
    let mut acc: i64 = 0;
    let mut i: usize = start;
    while i < n
        invariant
            start <= i <= n,
            n == name@.len(),
            n == bytes@.len(),
            forall|j: int| 0 <= j < n ==> #[trigger] name@[j] as u8 == bytes@[j],
            is_ascii_chars(name@),
            digits == name@.skip(start as int),
            digits == unsigned_part(name@),
            all_digits(digits.take(i - start)),
            acc == decimal(digits.take(i - start)),
            0 <= acc <= 2147483648,
        decreases n - i,
    {
        let b = bytes[i];
        let ghost c = name@[i as int];
        let ghost k = i - start;
        assert(digits[k] == c);
        assert(c as int == b as int);
        if b < 48u8 || b > 57u8 {
            assert(!is_digit(digits[k]));
            return None;
        }
        proof {
            assert(digits.take(k + 1) =~= digits.take(k).push(c));
            assert(digits.take(k + 1).drop_last() =~= digits.take(k));
            assert(all_digits(digits.take(k + 1))) by {
                assert forall|j: int| 0 <= j < k + 1 implies is_digit(
                    #[trigger] digits.take(k + 1)[j],
                ) by {
                    if j < k {
                        assert(digits.take(k + 1)[j] == digits.take(k)[j]);
                    }
                }
            }
        }
        acc = acc * 10 + (b - 48u8) as i64;
        if acc > 2147483648 {
            proof {
                if all_digits(digits) {
                    lemma_decimal_grows(digits, k + 1);
                }
            }
            return None;
        }
        i += 1;
    }
    assert(digits.take(n - start) =~= digits);
    if negative {
        Some((-acc) as i32)
    } else if acc == 2147483648 {
        None
    } else {
        Some(acc as i32)
    }
}

} // verus!
