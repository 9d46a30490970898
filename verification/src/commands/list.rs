//! Which presets a listing shows: the banks to read and the rows to keep.
use vstd::prelude::*;

use crate::device::NUM_BANKS;
use crate::text::chars_of;

verus! {

/// Whether `c` has the Unicode `White_Space` property, as
/// `char::is_whitespace` tests it.
pub open spec fn is_white_space(c: char) -> bool {
    let u = c as u32;
    ||| 0x09 <= u <= 0x0D
    ||| u == 0x20
    ||| u == 0x85
    ||| u == 0xA0
    ||| u == 0x1680
    ||| 0x2000 <= u <= 0x200A
    ||| u == 0x2028
    ||| u == 0x2029
    ||| u == 0x202F
    ||| u == 0x205F
    ||| u == 0x3000
}

fn white_space(c: char) -> (r: bool)
    ensures
        r == is_white_space(c),
{
    let u = c as u32;
    (0x09 <= u && u <= 0x0D) || u == 0x20 || u == 0x85 || u == 0xA0 || u == 0x1680 || (0x2000
        <= u && u <= 0x200A) || u == 0x2028 || u == 0x2029 || u == 0x202F || u == 0x205F || u
        == 0x3000
}

/// The number of leading white-space characters of `s`.
pub open spec fn leading_white(s: Seq<char>) -> nat
    decreases s.len(),
{
    if s.len() > 0 && is_white_space(s[0]) {
        1 + leading_white(s.drop_first())
    } else {
        0
    }
}

/// The number of trailing white-space characters of `s`.
pub open spec fn trailing_white(s: Seq<char>) -> nat
    decreases s.len(),
{
    if s.len() > 0 && is_white_space(s.last()) {
        1 + trailing_white(s.drop_last())
    } else {
        0
    }
}

/// `s` without leading and trailing white space, as `str::trim` gives it.
pub open spec fn trim_white(s: Seq<char>) -> Seq<char> {
    let head = s.skip(leading_white(s) as int);
    head.take(head.len() - trailing_white(head))
}

/// The code of `c` with an ASCII capital letter made small.
pub open spec fn ascii_lower(c: char) -> int {
    if 'A' <= c <= 'Z' {
        (c as u32) + 32
    } else {
        c as u32 as int
    }
}

/// Whether `a` and `b` are equal when ASCII letters are compared without
/// regard to case, as `str::eq_ignore_ascii_case` tests it.
pub open spec fn eq_ignore_ascii_case(a: Seq<char>, b: Seq<char>) -> bool {
    a.len() == b.len() && forall|i: int| 0 <= i < a.len() ==> ascii_lower(#[trigger] a[i]) == ascii_lower(b[i])
}

/// Whether a slot name counts as empty: nothing but white space, or the
/// word "empty" in any ASCII case once trimmed.
pub open spec fn spec_is_empty_slot_name(name: Seq<char>) -> bool {
    let t = trim_white(name);
    t.len() == 0 || eq_ignore_ascii_case(t, "empty"@)
}

proof fn lemma_leading_white_bound(s: Seq<char>)
    ensures
        leading_white(s) <= s.len(),
        forall|j: int| 0 <= j < leading_white(s) ==> is_white_space(#[trigger] s[j]),
        leading_white(s) < s.len() ==> !is_white_space(s[leading_white(s) as int]),
    decreases s.len(),
{
    if s.len() > 0 && is_white_space(s[0]) {
        lemma_leading_white_bound(s.drop_first());
        assert forall|j: int| 0 <= j < leading_white(s) implies is_white_space(#[trigger] s[j]) by {
            if j > 0 {
                assert(s[j] == s.drop_first()[j - 1]);
            }
        }
        if leading_white(s) < s.len() {
            assert(s[leading_white(s) as int] == s.drop_first()[leading_white(s.drop_first()) as int]);
        }
    }
}

proof fn lemma_trailing_white_bound(s: Seq<char>)
    ensures
        trailing_white(s) <= s.len(),
        forall|j: int| s.len() - trailing_white(s) <= j < s.len() ==> is_white_space(#[trigger] s[j]),
        trailing_white(s) < s.len() ==> !is_white_space(s[s.len() - trailing_white(s) - 1]),
    decreases s.len(),
{
    if s.len() > 0 && is_white_space(s.last()) {
        lemma_trailing_white_bound(s.drop_last());
        assert forall|j: int| s.len() - trailing_white(s) <= j < s.len() implies is_white_space(
            #[trigger] s[j],
        ) by {
            if j < s.len() - 1 {
                assert(s[j] == s.drop_last()[j]);
            }
        }
        if trailing_white(s) < s.len() {
            assert(s[s.len() - trailing_white(s) - 1] == s.drop_last()[s.drop_last().len()
                - trailing_white(s.drop_last()) - 1]);
        }
    }
}

/// The number of leading white-space characters of `s`, counted from
/// `start` on, equals that of `s.skip(start)`.
proof fn lemma_leading_white_skip(s: Seq<char>, start: int)
    requires
        0 <= start <= s.len(),
        forall|j: int| 0 <= j < start ==> is_white_space(#[trigger] s[j]),
    ensures
        leading_white(s) == start + leading_white(s.skip(start)),
    decreases start,
{
    if start > 0 {
        assert(s.drop_first().skip(start - 1) =~= s.skip(start));
        assert forall|j: int| 0 <= j < start - 1 implies is_white_space(#[trigger] s.drop_first()[j]) by {
            assert(s.drop_first()[j] == s[j + 1]);
        }
        lemma_leading_white_skip(s.drop_first(), start - 1);
    } else {
        assert(s.skip(0) =~= s);
    }
}

proof fn lemma_trailing_white_take(s: Seq<char>, end: int)
    requires
        0 <= end <= s.len(),
        forall|j: int| end <= j < s.len() ==> is_white_space(#[trigger] s[j]),
    ensures
        trailing_white(s) == (s.len() - end) + trailing_white(s.take(end)),
    decreases s.len() - end,
{
    if end < s.len() {
        assert(s.drop_last().take(end) =~= s.take(end));
        assert forall|j: int| end <= j < s.len() - 1 implies is_white_space(#[trigger] s.drop_last()[j]) by {
            assert(s.drop_last()[j] == s[j]);
        }
        lemma_trailing_white_take(s.drop_last(), end);
    } else {
        assert(s.take(end) =~= s);
    }
}

/// Whether a slot name counts as empty (see [`spec_is_empty_slot_name`]).
pub fn is_empty_slot_name(name: &str) -> (r: bool)
    ensures
        r == spec_is_empty_slot_name(name@),
{
    let s = chars_of(name);
    let ghost sv = s@;
    let mut start: usize = 0;
    while start < s.len() && white_space(s[start])
        invariant
            start <= s@.len(),
            s@ == sv,
            forall|j: int| 0 <= j < start ==> is_white_space(#[trigger] sv[j]),
        decreases s@.len() - start,
    {
        start += 1;
    }
    proof {
        lemma_leading_white_skip(sv, start as int);
        let rest = sv.skip(start as int);
        if start < s@.len() {
            assert(!is_white_space(rest[0]));
        } else {
            assert(rest.len() == 0);
        }
        assert(leading_white(rest) == 0);
    }
    let mut end: usize = s.len();
    while end > start && white_space(s[end - 1])
        invariant
            start <= end <= s@.len(),
            s@ == sv,
            forall|j: int| end <= j < sv.len() ==> is_white_space(#[trigger] sv[j]),
        decreases end,
    {
        end -= 1;
    }
    let ghost head = sv.skip(start as int);
    let ghost trimmed = head.take(end - start);
    proof {
        assert(leading_white(sv) == start);
        assert forall|j: int| end - start <= j < head.len() implies is_white_space(#[trigger] head[j]) by {
            assert(head[j] == sv[j + start]);
        }
        lemma_trailing_white_take(head, end - start);
        if end > start {
            assert(trimmed.last() == sv[end - 1]);
        }
        assert(trailing_white(trimmed) == 0);
        assert(trim_white(sv) =~= trimmed);
    }
    if end - start == 0 {
        return true;
    }
    let word = chars_of("empty");
    proof {
        reveal_strlit("empty");
    }
    if end - start != word.len() {
        return false;
    }
    let mut k: usize = 0;
    while k < word.len()
        invariant
            k <= word@.len(),
            word@ == "empty"@,
            end - start == word@.len(),
            start <= end <= s@.len(),
            s@ == sv,
            trimmed == sv.subrange(start as int, end as int),
            trim_white(sv) == trimmed,
            sv == name@,
            forall|i: int| 0 <= i < k ==> ascii_lower(#[trigger] trimmed[i]) == ascii_lower(word@[i]),
        decreases word@.len() - k,
    {
        let a = s[start + k];
        let b = word[k];
        let la: u32 = if 'A' <= a && a <= 'Z' {
            (a as u32) + 32
        } else {
            a as u32
        };
        let lb: u32 = if 'A' <= b && b <= 'Z' {
            (b as u32) + 32
        } else {
            b as u32
        };
        assert(trimmed[k as int] == a);
        assert(la == ascii_lower(a));
        assert(lb == ascii_lower(b));
        if la != lb {
            assert(ascii_lower(trimmed[k as int]) != ascii_lower(word@[k as int]));
            assert(!eq_ignore_ascii_case(trimmed, "empty"@));
            assert(trimmed.len() != 0);
            return false;
        }
        k += 1;
    }
    true
}

/// The banks a device listing reads, numbered from 0: the one asked for
/// (numbered from 1 on the command line), or all of them. `None` when the
/// bank asked for does not exist.
pub fn banks_to_query(only_bank: Option<u8>) -> (r: Option<Vec<u8>>)
    ensures
        match only_bank {
            Some(b) => if 1 <= b <= NUM_BANKS {
                r matches Some(v) && v@ == seq![(b - 1) as u8]
            } else {
                r is None
            },
            None => r matches Some(v) && v@ == seq![0u8, 1u8, 2u8, 3u8],
        },
{
    match only_bank {
        Some(b) => {
            if 1 <= b && b <= NUM_BANKS {
                let mut v: Vec<u8> = Vec::new();
                v.push(b - 1);
                assert(v@ =~= seq![(b - 1) as u8]);
                Some(v)
            } else {
                None
            }
        },
        None => {
            let mut v: Vec<u8> = Vec::new();
            let mut bank: u8 = 0;
            while bank < NUM_BANKS
                invariant
                    bank <= NUM_BANKS,
                    v@ == Seq::new(bank as nat, |i: int| i as u8),
                decreases NUM_BANKS - bank,
            {
                v.push(bank);
                assert(v@ =~= Seq::new(bank as nat + 1, |i: int| i as u8));
                bank += 1;
            }
            assert(v@ =~= seq![0u8, 1u8, 2u8, 3u8]);
            Some(v)
        },
    }
}

/// Whether a listing shows a preset of bank `bank` (numbered from 0) with
/// this name: its bank is the one asked for (numbered from 1), if any, and
/// empty slots show only when asked for.
pub fn is_listed(bank: u8, only_bank: Option<u8>, name: &str, include_empty: bool) -> (r: bool)
    ensures
        r == ((match only_bank {
            Some(b) => b == bank + 1,
            None => true,
        }) && (include_empty || !spec_is_empty_slot_name(name@))),
{
    let in_bank = match only_bank {
        Some(b) => b as u16 == bank as u16 + 1,
        None => true,
    };
    in_bank && (include_empty || !is_empty_slot_name(name))
}

} // verus!
