//! Character-level text helpers: decimal numbers, concatenation and slash-separated paths.

use vstd::prelude::*;
use vstd::utf8::{decode_utf8, valid_utf8};

verus! {

/// `String::push` of the standard library: appends one character at the end.
pub assume_specification[ String::push ](s: &mut String, c: char)
    ensures
        final(s)@ == old(s)@.push(c),
;

/// The decimal digit `d` as a character.
pub open spec fn digit_char(d: int) -> char {
    (48 + d) as char
}

/// The shortest decimal numeral of a natural number.
pub open spec fn decimal(n: nat) -> Seq<char>
    decreases n,
{
    if n < 10 {
        seq![digit_char(n as int)]
    } else {
        decimal(n / 10).push(digit_char((n % 10) as int))
    }
}

/// The decimal numeral of an integer, with a leading minus sign where it is negative.
pub open spec fn decimal_int(i: int) -> Seq<char> {
    if i < 0 {
        seq!['-'] + decimal((-i) as nat)
    } else {
        decimal(i as nat)
    }
}

/// Writes `n` in decimal.
pub fn decimal_u64(n: u64) -> (text: String)
    ensures
        text@ == decimal(n as nat),
    decreases n,
{
    if n < 10 {
        let mut text = String::new();
        let d: u8 = 48u8 + (n as u8);
        text.push(d as char);
        text
    } else {
        let mut text = decimal_u64(n / 10);
        let d: u8 = 48u8 + ((n % 10) as u8);
        text.push(d as char);
        text
    }
}

/// Writes `n` in decimal.
pub fn decimal_u128(n: u128) -> (text: String)
    ensures
        text@ == decimal(n as nat),
    decreases n,
{
    if n < 10 {
        decimal_u64(n as u64)
    } else {
        let mut text = decimal_u128(n / 10);
        let d: u8 = 48u8 + ((n % 10) as u8);
        text.push(d as char);
        text
    }
}

/// Writes `i` in decimal.
pub fn decimal_i64(i: i64) -> (text: String)
    ensures
        text@ == decimal_int(i as int),
{
    if i < 0 {
        let magnitude: u64 = if i == i64::MIN { 9_223_372_036_854_775_808u64 } else { (-i) as u64 };
        let mut text = String::new();
        text.push('-');
        text.append(decimal_u64(magnitude).as_str());
        text
    } else {
        decimal_u64(i as u64)
    }
}

/// The characters of `s`, in order.
pub fn chars_of(s: &str) -> (chars: Vec<char>)
    ensures
        chars@ == s@,
{
    let mut chars: Vec<char> = Vec::new();
    for c in it: s.chars()
        invariant
            chars@ == s@.take(it.index()),
            it.seq() == s@,
    {
        proof { assert(s@.take(it.index() + 1) == s@.take(it.index()).push(s@[it.index()])); }
        chars.push(c);
    }
    proof { assert(s@.take(s@.len() as int) == s@); }
    chars
}

/// `head` followed by `tail`.
pub fn prefixed(head: &str, tail: &str) -> (text: String)
    ensures
        text@ == head@ + tail@,
{
    let mut text = head.to_owned();
    text.append(tail);
    text
}

/// Whether two texts are equal.
pub fn same_text(a: &str, b: &str) -> (same: bool)
    ensures
        same == (a@ == b@),
{
    a.to_owned() == b.to_owned()
}

/// What a run of bytes that is not well-formed UTF-8 becomes as text.
pub uninterp spec fn lossy_text(bytes: Seq<u8>) -> Seq<char>;

/// What a run of bytes means as text: well-formed UTF-8 as it is, malformed sequences replaced.
pub open spec fn text_in(bytes: Seq<u8>) -> Seq<char> {
    if valid_utf8(bytes) {
        decode_utf8(bytes)
    } else {
        lossy_text(bytes)
    }
}

/// `String::from_utf8_lossy` of the standard library, made an owned text. Well-formed UTF-8 is
/// decoded as it is. For other bytes the contract only names the result, as a function of the
/// bytes; how malformed sequences are replaced is left unsaid.
#[verifier::external_body]
pub(crate) fn from_utf8_lossy(bytes: &[u8]) -> (text: String)
    ensures
        text@ == (if valid_utf8(bytes@) {
            decode_utf8(bytes@)
        } else {
            lossy_text(bytes@)
        }),
{
    String::from_utf8_lossy(bytes).into_owned()
}

/// The value of a run of decimal digits, or `None` where another character occurs. An empty run
/// has the value zero.
pub open spec fn digits_value(s: Seq<char>) -> Option<nat>
    decreases s.len(),
{
    if s.len() == 0 {
        Some(0)
    } else if '0' <= s.last() <= '9' {
        match digits_value(s.drop_last()) {
            Some(v) => Some((10 * v + (s.last() as int - '0' as int)) as nat),
            None => None,
        }
    } else {
        None
    }
}

/// The integer that a text spells: an optional sign and at least one digit.
pub open spec fn spelled_int(s: Seq<char>) -> Option<int> {
    let signed = s.len() > 0 && (s[0] == '+' || s[0] == '-');
    let digits = if signed {
        s.skip(1)
    } else {
        s
    };
    if digits.len() == 0 {
        None
    } else {
        match digits_value(digits) {
            Some(v) => Some(
                if signed && s[0] == '-' {
                    -v
                } else {
                    v as int
                },
            ),
            None => None,
        }
    }
}

/// The 64-bit integer that a text spells, if it spells one and it fits.
pub open spec fn spelled_i64(s: Seq<char>) -> Option<i64> {
    match spelled_int(s) {
        Some(v) => if i64::MIN <= v <= i64::MAX {
            Some(v as i64)
        } else {
            None
        },
        None => None,
    }
}

/// A run of digits with a character that is no digit has no value, however it goes on.
proof fn lemma_no_value(s: Seq<char>, n: int)
    requires
        0 <= n <= s.len(),
        digits_value(s.take(n)) is None,
    ensures
        digits_value(s) is None,
    decreases s.len() - n,
{
    if n < s.len() {
        assert(s.take(n + 1).drop_last() =~= s.take(n));
        lemma_no_value(s, n + 1);
    } else {
        assert(s.take(n) =~= s);
    }
}

/// Reads a run of digits from position `from` on: its value where that is below 2^64, and
/// `None` where it is not or where another character occurs.
fn read_digits(s: &Vec<char>, from: usize) -> (value: Option<u64>)
    requires
        from <= s@.len(),
    ensures
        match value {
            Some(v) => digits_value(s@.skip(from as int)) == Some(v as nat),
            None => match digits_value(s@.skip(from as int)) {
                Some(v) => v > u64::MAX,
                None => true,
            },
        },
{
    let ghost run = s@.skip(from as int);
    let mut value: u64 = 0;
    let mut big: bool = false;
    let mut i: usize = from;
    while i < s.len()
        invariant
            from <= i <= s@.len(),
            run == s@.skip(from as int),
            match digits_value(run.take(i - from)) {
                Some(v) => if big {
                    v > u64::MAX
                } else {
                    v == value
                },
                None => false,
            },
        decreases s@.len() - i,
    {
        let c: char = s[i];
        proof {
            assert(run.take(i - from + 1).drop_last() =~= run.take(i - from));
            assert(run.take(i - from + 1).last() == c);
        }
        if c < '0' || c > '9' {
            proof {
                lemma_no_value(run, i - from + 1);
            }
            return None;
        }
        let d: u64 = (c as u32 - '0' as u32) as u64;
        if !big {
            if value > (u64::MAX - d) / 10 {
                big = true;
            } else {
                value = 10 * value + d;
            }
        }
        i += 1;
    }
    proof {
        assert(run.take(run.len() as int) =~= run);
    }
    if big {
        None
    } else {
        Some(value)
    }
}

/// Reads a 64-bit integer: an optional sign and at least one digit, and nothing else.
pub fn parse_i64(text: &str) -> (value: Option<i64>)
    ensures
        value == spelled_i64(text@),
{
    let s = chars_of(text);
    let signed: bool = s.len() > 0 && (s[0] == '+' || s[0] == '-');
    let from: usize = if signed { 1 } else { 0 };
    assert(s@.skip(0) =~= s@);
    if s.len() == from {
        return None;
    }
    match read_digits(&s, from) {
        Some(v) => {
            if signed && s[0] == '-' {
                if v <= 0x7FFF_FFFF_FFFF_FFFF {
                    Some(-(v as i64))
                } else if v == 0x8000_0000_0000_0000 {
                    Some(i64::MIN)
                } else {
                    None
                }
            } else if v <= 0x7FFF_FFFF_FFFF_FFFF {
                Some(v as i64)
            } else {
                None
            }
        },
        None => None,
    }
}

/// Whether a text ends with another.
pub open spec fn ends_with(s: Seq<char>, tail: Seq<char>) -> bool {
    s.len() >= tail.len() && s.skip(s.len() - tail.len()) == tail
}

/// What is left of a text when the given tail is taken off, or `None` where it does not end so.
pub fn strip_suffix(text: &str, tail: &str) -> (stem: Option<String>)
    ensures
        match stem {
            Some(stem) => ends_with(text@, tail@) && stem@ == text@.take(
                text@.len() - tail@.len(),
            ),
            None => !ends_with(text@, tail@),
        },
{
    let n: usize = text.unicode_len();
    let k: usize = tail.unicode_len();
    if n < k {
        return None;
    }
    let end = text.substring_char(n - k, n);
    assert(end@ =~= text@.skip(n - k));
    if !same_text(end, tail) {
        return None;
    }
    Some(text.substring_char(0, n - k).to_owned())
}

/// A path under a directory. An absolute path stays as it is.
pub open spec fn path_under(dir: Seq<char>, name: Seq<char>) -> Seq<char> {
    if name.len() > 0 && name[0] == '/' {
        name
    } else if dir.len() == 0 {
        name
    } else if dir.last() == '/' {
        dir + name
    } else {
        dir.push('/') + name
    }
}

/// Joins a path to a directory.
pub fn path_join(dir: &str, name: &str) -> (path: String)
    ensures
        path@ == path_under(dir@, name@),
{
    let n: usize = dir.unicode_len();
    if name.unicode_len() > 0 && name.get_char(0) == '/' {
        return name.to_owned();
    }
    if n == 0 {
        return name.to_owned();
    }
    let mut path = dir.to_owned();
    if dir.get_char(n - 1) != '/' {
        path.push('/');
    }
    path.append(name);
    path
}

/// A path without its leading slashes.
pub open spec fn relative_path(path: Seq<char>) -> Seq<char>
    decreases path.len(),
{
    if path.len() > 0 && path[0] == '/' {
        relative_path(path.skip(1))
    } else {
        path
    }
}

/// Takes the leading slashes off a path.
pub fn trim_leading_slashes(path: &str) -> (rest: String)
    ensures
        rest@ == relative_path(path@),
{
    let n: usize = path.unicode_len();
    let mut i: usize = 0;
    assert(path@.skip(0) =~= path@);
    while i < n && path.get_char(i) == '/'
        invariant
            i <= n,
            n == path@.len(),
            relative_path(path@.skip(i as int)) == relative_path(path@),
        decreases n - i,
    {
        assert(path@.skip(i as int).skip(1) =~= path@.skip(i + 1));
        i += 1;
    }
    let rest = path.substring_char(i, n);
    assert(rest@ =~= path@.skip(i as int));
    rest.to_owned()
}

/// A path without its leading slashes does not begin with one.
pub proof fn lemma_relative_path(path: Seq<char>)
    ensures
        relative_path(path).len() == 0 || relative_path(path)[0] != '/',
    decreases path.len(),
{
    if path.len() > 0 && path[0] == '/' {
        lemma_relative_path(path.skip(1));
    }
}

/// A text without its leading dots.
pub open spec fn without_leading_dots(s: Seq<char>) -> Seq<char>
    decreases s.len(),
{
    if s.len() > 0 && s[0] == '.' {
        without_leading_dots(s.skip(1))
    } else {
        s
    }
}

/// Takes the leading dots off a text.
pub fn trim_leading_dots(s: &str) -> (rest: String)
    ensures
        rest@ == without_leading_dots(s@),
{
    let n: usize = s.unicode_len();
    let mut i: usize = 0;
    assert(s@.skip(0) =~= s@);
    while i < n && s.get_char(i) == '.'
        invariant
            i <= n,
            n == s@.len(),
            without_leading_dots(s@.skip(i as int)) == without_leading_dots(s@),
        decreases n - i,
    {
        assert(s@.skip(i as int).skip(1) =~= s@.skip(i + 1));
        i += 1;
    }
    let rest = s.substring_char(i, n);
    assert(rest@ =~= s@.skip(i as int));
    rest.to_owned()
}

/// An ASCII letter in lower case; other characters stay.
pub open spec fn lower_char(c: char) -> char {
    if 'A' <= c <= 'Z' {
        (c as int + 32) as char
    } else {
        c
    }
}

/// A text with its ASCII letters in lower case.
pub open spec fn lower(s: Seq<char>) -> Seq<char> {
    s.map_values(|c: char| lower_char(c))
}

/// Puts the ASCII letters of a text in lower case.
pub fn lowercase(s: &str) -> (text: String)
    ensures
        text@ == lower(s@),
{
    let chars = chars_of(s);
    let mut text = String::new();
    let mut i: usize = 0;
    while i < chars.len()
        invariant
            i <= chars@.len(),
            text@ == lower(chars@.take(i as int)),
        decreases chars@.len() - i,
    {
        let c: char = chars[i];
        if c >= 'A' && c <= 'Z' {
            text.push((c as u8 + 32) as char);
        } else {
            text.push(c);
        }
        i += 1;
        assert(text@ =~= lower(chars@.take(i as int)));
    }
    assert(chars@.take(chars@.len() as int) =~= chars@);
    text
}

/// Where the last component of a path starts: behind its last slash.
pub open spec fn last_start(path: Seq<char>) -> int
    decreases path.len(),
{
    if path.len() == 0 || path.last() == '/' {
        path.len() as int
    } else {
        last_start(path.drop_last())
    }
}

/// The name of the file that a path leads to: its last component, not counting empty ones and
/// dots; empty where there is none or where it is a double dot.
pub open spec fn base_name(path: Seq<char>) -> Seq<char>
    decreases path.len(),
{
    let k = last_start(path);
    let part = path.skip(k);
    if 0 < k <= path.len() && (part.len() == 0 || part == seq!['.']) {
        base_name(path.take(k - 1))
    } else if part == seq!['.'] || part == seq!['.', '.'] {
        seq![]
    } else {
        part
    }
}

/// The name of the file that a path leads to.
pub fn file_name(path: &str) -> (name: String)
    ensures
        name@ == base_name(path@),
{
    let mut end: usize = path.unicode_len();
    assert(path@.take(path@.len() as int) =~= path@);
    loop
        invariant
            end <= path@.len(),
            base_name(path@.take(end as int)) == base_name(path@),
        decreases end,
    {
        let ghost head = path@.take(end as int);
        let mut k: usize = end;
        while k > 0 && path.get_char(k - 1) != '/'
            invariant
                k <= end <= path@.len(),
                last_start(path@.take(k as int)) == last_start(path@.take(end as int)),
            decreases k,
        {
            assert(path@.take(k as int).drop_last() =~= path@.take(k - 1));
            k -= 1;
        }
        assert(last_start(head) == k);
        let part = path.substring_char(k, end);
        assert(part@ =~= head.skip(k as int));
        let dot: bool = end - k == 1 && path.get_char(k) == '.';
        proof {
            if dot {
                assert(part@ =~= seq!['.']);
            } else if part@ == seq!['.'] {
                assert(part@[0] == path@[k as int]);
            }
        }
        if k > 0 && (k == end || dot) {
            assert(head.take(k - 1) =~= path@.take(k - 1));
            end = k - 1;
        } else {
            let dots: bool = end - k == 2 && path.get_char(k) == '.' && path.get_char(k + 1) == '.';
            proof {
                if dots {
                    assert(part@ =~= seq!['.', '.']);
                } else if part@ == seq!['.', '.'] {
                    assert(part@[0] == path@[k as int] && part@[1] == path@[k + 1]);
                }
            }
            if dot || dots {
                let name = String::new();
                assert(name@ =~= seq![]);
                return name;
            }
            return part.to_owned();
        }
    }
}

/// Reading a decimal numeral gives the number back.
pub proof fn law_decimal_reads_back(i: i64)
    ensures
        spelled_i64(decimal_int(i as int)) == Some(i),
{
    let n = if i < 0 {
        (-i) as nat
    } else {
        i as nat
    };
    lemma_decimal_digits(n);
    let s = decimal_int(i as int);
    if i < 0 {
        assert(s[0] == '-');
        assert(s.skip(1) =~= decimal(n));
    } else {
        assert(s == decimal(n));
    }
}

/// A decimal numeral has no slash in it, and it is not empty.
pub proof fn lemma_decimal_has_no_slash(i: int)
    ensures
        !decimal_int(i).contains('/'),
        decimal_int(i).len() > 0,
{
    let n = if i < 0 {
        (-i) as nat
    } else {
        i as nat
    };
    lemma_digits_are_no_slash(n);
    lemma_decimal_digits(n);
    if decimal_int(i).contains('/') {
        let k = choose|k: int| 0 <= k < decimal_int(i).len() && decimal_int(i)[k] == '/';
        if i < 0 {
            assert(decimal(n)[k - 1] == '/');
        } else {
            assert(decimal(n)[k] == '/');
        }
    }
}

/// No digit is a slash.
proof fn lemma_digits_are_no_slash(n: nat)
    ensures
        forall|k: int| 0 <= k < decimal(n).len() ==> #[trigger] decimal(n)[k] != '/',
    decreases n,
{
    if n >= 10 {
        lemma_digits_are_no_slash(n / 10);
        let s = decimal(n);
        assert forall|k: int| 0 <= k < s.len() implies #[trigger] s[k] != '/' by {
            if k < s.len() - 1 {
                assert(s[k] == decimal(n / 10)[k]);
            }
        }
    }
}

/// A decimal numeral consists of digits, at least one, and has the value of the number.
pub proof fn lemma_decimal_digits(n: nat)
    ensures
        decimal(n).len() > 0,
        '0' <= decimal(n)[0] <= '9',
        digits_value(decimal(n)) == Some(n),
    decreases n,
{
    if n < 10 {
        let s = decimal(n);
        assert(s.drop_last() =~= Seq::empty());
        reveal_with_fuel(digits_value, 2);
    } else {
        lemma_decimal_digits(n / 10);
        let s = decimal(n);
        assert(s.drop_last() =~= decimal(n / 10));
        assert(s.last() == digit_char((n % 10) as int));
    }
}

/// What is taken off the front of a path is slashes and nothing else, and all of those that lead
/// it.
pub proof fn law_only_leading_slashes_go(path: Seq<char>)
    ensures
        exists|k: int|
            {
                &&& 0 <= k <= path.len()
                &&& #[trigger] path.skip(k) == relative_path(path)
                &&& forall|i: int| 0 <= i < k ==> path[i] == '/'
                &&& k < path.len() ==> path[k] != '/'
            },
    decreases path.len(),
{
    if path.len() > 0 && path[0] == '/' {
        let rest = path.skip(1);
        law_only_leading_slashes_go(rest);
        let k = choose|k: int|
            {
                &&& 0 <= k <= rest.len()
                &&& #[trigger] rest.skip(k) == relative_path(rest)
                &&& forall|i: int| 0 <= i < k ==> rest[i] == '/'
                &&& k < rest.len() ==> rest[k] != '/'
            };
        assert(path.skip(k + 1) =~= rest.skip(k));
        assert forall|i: int| 0 <= i < k + 1 implies path[i] == '/' by {
            if i > 0 {
                assert(rest[i - 1] == path[i]);
            }
        }
    } else {
        assert(path.skip(0) =~= path);
    }
}

/// What is taken off the front of a text is dots and nothing else, and all of those that lead it.
pub proof fn law_only_leading_dots_go(s: Seq<char>)
    ensures
        exists|k: int|
            {
                &&& 0 <= k <= s.len()
                &&& #[trigger] s.skip(k) == without_leading_dots(s)
                &&& forall|i: int| 0 <= i < k ==> s[i] == '.'
                &&& k < s.len() ==> s[k] != '.'
            },
    decreases s.len(),
{
    if s.len() > 0 && s[0] == '.' {
        let rest = s.skip(1);
        law_only_leading_dots_go(rest);
        let k = choose|k: int|
            {
                &&& 0 <= k <= rest.len()
                &&& #[trigger] rest.skip(k) == without_leading_dots(rest)
                &&& forall|i: int| 0 <= i < k ==> rest[i] == '.'
                &&& k < rest.len() ==> rest[k] != '.'
            };
        assert(s.skip(k + 1) =~= rest.skip(k));
        assert forall|i: int| 0 <= i < k + 1 implies s[i] == '.' by {
            if i > 0 {
                assert(rest[i - 1] == s[i]);
            }
        }
    } else {
        assert(s.skip(0) =~= s);
    }
}

/// Lowering a text changes the letters from A to Z, each into its small counterpart, and leaves
/// every other character where and what it is.
pub proof fn law_only_capitals_change(s: Seq<char>, i: int)
    requires
        0 <= i < s.len(),
    ensures
        lower(s).len() == s.len(),
        65 <= s[i] as int <= 90 ==> lower(s)[i] as int == s[i] as int + 32,
        !(65 <= s[i] as int <= 90) ==> lower(s)[i] == s[i],
        lower(lower(s)) == lower(s),
{
    assert(lower(lower(s)) =~= lower(s));
}

/// A text ends with another exactly where it is something followed by it.
pub proof fn law_ending(s: Seq<char>, head: Seq<char>, tail: Seq<char>)
    ensures
        ends_with(head + tail, tail),
        ends_with(s, tail) ==> exists|h: Seq<char>| s == #[trigger] (h + tail),
{
    assert((head + tail).skip(head.len() as int) =~= tail);
    if ends_with(s, tail) {
        assert(s =~= s.take(s.len() - tail.len()) + tail);
    }
}

/// A relative path under a directory is the directory, a slash and the path, the slash being the
/// directory's own where it ends in one. An absolute path stays what it is, and so does one under
/// no directory.
pub proof fn law_path_under(dir: Seq<char>, name: Seq<char>)
    ensures
        name.len() > 0 && name[0] == '/' ==> path_under(dir, name) == name,
        dir.len() == 0 ==> path_under(dir, name) == name,
        !(name.len() > 0 && name[0] == '/') && dir.len() > 0 && dir.last() != '/' ==> path_under(
            dir,
            name,
        ) == dir + seq!['/'] + name,
        !(name.len() > 0 && name[0] == '/') && dir.len() > 0 && dir.last() == '/' ==> path_under(
            dir,
            name,
        ) == dir + name,
{
    assert(dir.push('/') + name =~= dir + seq!['/'] + name);
}

/// A decimal numeral is made of digits alone and does not begin with a zero unless it is that of
/// zero. Only a negative number has a sign, in front of the numeral of its magnitude.
pub proof fn law_decimal_spelling(n: nat, i: int)
    ensures
        decimal(n).len() > 0,
        forall|k: int| 0 <= k < decimal(n).len() ==> '0' <= #[trigger] decimal(n)[k] <= '9',
        n > 0 ==> decimal(n)[0] != '0',
        n == 0 ==> decimal(n) == seq!['0'],
        digits_value(decimal(n)) == Some(n),
        i >= 0 ==> decimal_int(i) == decimal(i as nat),
        i < 0 ==> decimal_int(i) == seq!['-'] + decimal((-i) as nat),
    decreases n,
{
    lemma_decimal_digits(n);
    if n >= 10 {
        law_decimal_spelling(n / 10, i);
        let s = decimal(n);
        assert forall|k: int| 0 <= k < s.len() implies '0' <= #[trigger] s[k] <= '9' by {
            if k < s.len() - 1 {
                assert(s[k] == decimal(n / 10)[k]);
            }
        }
        assert(s[0] == decimal(n / 10)[0]);
    }
}

/// A run of digits has a value exactly where it holds nothing else, and each digit counts ten
/// times as much as the one behind it.
pub proof fn law_digits_value(s: Seq<char>, c: char)
    ensures
        digits_value(s) is Some <==> forall|k: int| 0 <= k < s.len() ==> '0' <= #[trigger] s[k]
            <= '9',
        digits_value(s) is Some && '0' <= c <= '9' ==> digits_value(s.push(c)) == Some(
            (10 * digits_value(s)->0 + (c as int - 48)) as nat,
        ),
        s.len() == 0 ==> digits_value(s) == Some(0nat),
    decreases s.len(),
{
    assert(s.push(c).drop_last() =~= s);
    if s.len() > 0 {
        let rest = s.drop_last();
        law_digits_value(rest, c);
        if digits_value(s) is Some {
            assert forall|k: int| 0 <= k < s.len() implies '0' <= #[trigger] s[k] <= '9' by {
                if k < rest.len() {
                    assert(rest[k] == s[k]);
                }
            }
        }
        if forall|k: int| 0 <= k < s.len() ==> '0' <= #[trigger] s[k] <= '9' {
            assert forall|k: int| 0 <= k < rest.len() implies '0' <= #[trigger] rest[k] <= '9' by {
                assert(rest[k] == s[k]);
            }
            assert(s[s.len() - 1] == s.last());
        }
    }
}

/// A text spells an integer where it is a run of digits, perhaps behind one sign; a minus sign
/// makes the integer negative. Nothing else spells one.
pub proof fn law_spelled_integers(digits: Seq<char>, s: Seq<char>)
    requires
        digits.len() > 0,
        '0' <= digits[0] <= '9',
    ensures
        spelled_int(digits) == (match digits_value(digits) {
            Some(v) => Some(v as int),
            None => None,
        }),
        spelled_int(seq!['+'] + digits) == spelled_int(digits),
        spelled_int(seq!['-'] + digits) == (match spelled_int(digits) {
            Some(v) => Some(-v),
            None => None,
        }),
        spelled_int(s) is Some ==> {
            &&& s.len() > 0
            &&& '0' <= s.last() <= '9'
            &&& forall|k: int| 0 < k < s.len() ==> '0' <= #[trigger] s[k] <= '9'
            &&& '0' <= s[0] <= '9' || s[0] == '+' || s[0] == '-'
        },
{
    assert((seq!['+'] + digits).skip(1) =~= digits);
    assert((seq!['-'] + digits).skip(1) =~= digits);
    if spelled_int(s) is Some {
        let signed = s[0] == '+' || s[0] == '-';
        let run = if signed {
            s.skip(1)
        } else {
            s
        };
        law_digits_value(run, '0');
        assert(s.last() == run[run.len() - 1]);
        assert forall|k: int| 0 < k < s.len() implies '0' <= #[trigger] s[k] <= '9' by {
            if signed {
                assert(run[k - 1] == s[k]);
            } else {
                assert(run[k] == s[k]);
            }
        }
        if !signed {
            assert(run[0] == s[0]);
        }
    }
}

/// A text spells a 64-bit integer where it spells an integer within the bounds, and then that one.
pub proof fn law_spelled_bounds(s: Seq<char>)
    ensures
        spelled_i64(s) is Some <==> (spelled_int(s) matches Some(v)
            && -0x8000_0000_0000_0000 <= v <= 0x7FFF_FFFF_FFFF_FFFF),
        spelled_i64(s) matches Some(n) ==> spelled_int(s) == Some(n as int),
{
}

/// A number that is written in decimal and read again is the same number.
pub proof fn law_writing_and_reading_numbers(
    i: i64,
    text: String,
    s: &str,
    read: Option<i64>,
    n: u64,
    digits: String,
)
    requires
        call_ensures(decimal_i64, (i,), text),
        s@ == text@,
        call_ensures(parse_i64, (s,), read),
        call_ensures(decimal_u64, (n,), digits),
    ensures
        read == Some(i),
        digits@ == decimal_int(n as int),
        digits@.len() > 0 && (n > 0 ==> digits@[0] != '0'),
{
    law_decimal_reads_back(i);
    law_decimal_spelling(n as nat, i as int);
}

/// Joining a path to a directory, taking leading slashes off one, and taking an ending off a text,
/// for calls.
pub proof fn law_cutting_and_joining_texts(
    dir: &str,
    name: &str,
    joined: String,
    rest: String,
    tail: &str,
    stem: Option<String>,
)
    requires
        call_ensures(path_join, (dir, name), joined),
        call_ensures(trim_leading_slashes, (name,), rest),
        call_ensures(strip_suffix, (name, tail), stem),
    ensures
        name@.len() > 0 && name@[0] == '/' ==> joined@ == name@,
        !(name@.len() > 0 && name@[0] == '/') && dir@.len() > 0 && dir@.last() != '/' ==> joined@
            == dir@ + seq!['/'] + name@,
        rest@.len() > 0 ==> rest@[0] != '/',
        exists|k: int|
            {
                &&& 0 <= k <= name@.len()
                &&& #[trigger] name@.skip(k) == rest@
                &&& forall|i: int| 0 <= i < k ==> name@[i] == '/'
            },
        stem matches Some(t) ==> name@ == t@ + tail@,
        stem is None ==> forall|h: Seq<char>| name@ != #[trigger] (h + tail@),
{
    law_path_under(dir@, name@);
    lemma_relative_path(name@);
    law_only_leading_slashes_go(name@);
    if let Some(t) = stem {
        assert(name@ =~= t@ + tail@);
    } else {
        assert forall|h: Seq<char>| name@ != #[trigger] (h + tail@) by {
            law_ending(name@, h, tail@);
        }
    }
}

} // verus!
