//! Texts between quotation marks, as JSON and GraphQL write them: a backslash stands before what
//! cannot stand there as it is.

use vstd::prelude::*;

verus! {

// ---------------------------------------------------------------------------------------------
// Reading
// ---------------------------------------------------------------------------------------------

/// The quotation mark that ends the text that goes on at `from`: the first that no backslash
/// stands before. A backslash goes together with the character after it.
pub open spec fn literal_end(s: Seq<char>, from: int) -> Option<int>
    decreases s.len() - from + 1,
{
    if from >= s.len() {
        None
    } else if s[from] == '"' {
        Some(from)
    } else if s[from] == '\\' {
        literal_end(s, from + 2)
    } else {
        literal_end(s, from + 1)
    }
}

/// A found end is a quotation mark of the text.
pub proof fn lemma_literal_end(s: Seq<char>, from: int)
    ensures
        literal_end(s, from) matches Some(end) ==> from <= end < s.len() && s[end] == '"',
    decreases s.len() - from + 1,
{
    if from < s.len() && s[from] != '"' {
        if s[from] == '\\' {
            lemma_literal_end(s, from + 2);
        } else {
            lemma_literal_end(s, from + 1);
        }
    }
}

/// Finds the quotation mark that ends the text that goes on at `from`.
pub fn find_literal_end(s: &[char], from: usize) -> (r: Option<usize>)
    requires
        from <= s@.len(),
    ensures
        match r {
            Some(end) => literal_end(s@, from as int) == Some(end as int),
            None => literal_end(s@, from as int) is None,
        },
        r matches Some(end) ==> from <= end < s@.len(),
{
    let len = s.len();
    let mut i = from;
    while i < len
        invariant
            len == s@.len(),
            from <= i <= len,
            literal_end(s@, i as int) == literal_end(s@, from as int),
        decreases len - i,
    {
        if s[i] == '"' {
            return Some(i);
        }
        if s[i] == '\\' {
            if len - i < 2 {
                assert(literal_end(s@, i + 2) is None);
                return None;
            }
            i += 2;
        } else {
            i += 1;
        }
    }
    None
}

/// What a hexadecimal digit stands for.
pub open spec fn hex_value(c: char) -> Option<int> {
    if '0' <= c <= '9' {
        Some(c as int - '0' as int)
    } else if 'a' <= c <= 'f' {
        Some(c as int - 'a' as int + 10)
    } else if 'A' <= c <= 'F' {
        Some(c as int - 'A' as int + 10)
    } else {
        None
    }
}

/// What the four hexadecimal digits at `at` stand for, if they stand there.
pub open spec fn hex4(s: Seq<char>, at: int) -> Option<int> {
    if at + 4 <= s.len() && hex_value(s[at]) is Some && hex_value(s[at + 1]) is Some && hex_value(
        s[at + 2],
    ) is Some && hex_value(s[at + 3]) is Some {
        Some(
            ((hex_value(s[at])->0 * 16 + hex_value(s[at + 1])->0) * 16 + hex_value(s[at + 2])->0)
                * 16 + hex_value(s[at + 3])->0,
        )
    } else {
        None
    }
}

/// The character that the escape with the code unit `unit` at the start of `s` stands for, and how
/// long the escape is. The two halves of a surrogate pair stand for one character.
pub open spec fn unit_escape(s: Seq<char>, unit: int) -> Option<(char, int)> {
    if unit < 0xd800 || 0xe000 <= unit {
        Some((unit as char, 6))
    } else if unit < 0xdc00 && s.len() >= 12 && s[6] == '\\' && s[7] == 'u' {
        match hex4(s, 8) {
            Some(low) => if 0xdc00 <= low < 0xe000 {
                Some(((0x10000 + (unit - 0xd800) * 0x400 + (low - 0xdc00)) as char, 12))
            } else {
                None
            },
            None => None,
        }
    } else {
        None
    }
}

/// The character that the escape at the start of `s` stands for, and how long the escape is.
pub open spec fn escape_at(s: Seq<char>) -> Option<(char, int)> {
    if s.len() < 2 || s[0] != '\\' {
        None
    } else if s[1] == '"' || s[1] == '\\' || s[1] == '/' {
        Some((s[1], 2))
    } else if s[1] == 'b' {
        Some(('\x08', 2))
    } else if s[1] == 'f' {
        Some(('\x0c', 2))
    } else if s[1] == 'n' {
        Some(('\n', 2))
    } else if s[1] == 'r' {
        Some(('\r', 2))
    } else if s[1] == 't' {
        Some(('\t', 2))
    } else if s[1] == 'u' {
        match hex4(s, 2) {
            Some(unit) => unit_escape(s, unit),
            None => None,
        }
    } else {
        None
    }
}

/// The text that `s` is written for: every escape is undone. A backslash that begins none stands
/// for itself.
pub open spec fn unescaped(s: Seq<char>) -> Seq<char>
    decreases s.len(),
{
    if s.len() == 0 {
        Seq::empty()
    } else {
        match escape_at(s) {
            Some((c, n)) => seq![c] + unescaped(s.skip(n)),
            None => seq![s[0]] + unescaped(s.skip(1)),
        }
    }
}

/// `char::from_u32` gives the character of a Unicode scalar value, and `None` for a surrogate and
/// for what lies above U+10FFFF.
pub assume_specification[ char::from_u32 ](i: u32) -> (r: Option<char>)
    ensures
        match r {
            Some(c) => c as int == i as int,
            None => 0xd800 <= i < 0xe000 || 0x10ffff < i,
        },
;

fn read_hex(c: char) -> (r: Option<u32>)
    ensures
        match r {
            Some(v) => hex_value(c) == Some(v as int) && v < 16,
            None => hex_value(c) is None,
        },
{
    if '0' <= c && c <= '9' {
        Some(c as u32 - '0' as u32)
    } else if 'a' <= c && c <= 'f' {
        Some(c as u32 - 'a' as u32 + 10)
    } else if 'A' <= c && c <= 'F' {
        Some(c as u32 - 'A' as u32 + 10)
    } else {
        None
    }
}

fn read_hex4(s: &[char], at: usize) -> (r: Option<u32>)
    ensures
        match r {
            Some(v) => hex4(s@, at as int) == Some(v as int) && v < 0x10000,
            None => hex4(s@, at as int) is None,
        },
{
    let len = s.len();
    if at > len || len - at < 4 {
        return None;
    }
    match (read_hex(s[at]), read_hex(s[at + 1]), read_hex(s[at + 2]), read_hex(s[at + 3])) {
        (Some(a), Some(b), Some(c), Some(d)) => Some(((a * 16 + b) * 16 + c) * 16 + d),
        _ => None,
    }
}

/// Reads the escape at the start of `s`.
fn read_escape(s: &[char]) -> (r: Option<(char, usize)>)
    ensures
        match r {
            Some((c, n)) => escape_at(s@) == Some((c, n as int)) && 0 < n <= s@.len(),
            None => escape_at(s@) is None,
        },
{
    let len = s.len();
    if len < 2 || s[0] != '\\' {
        return None;
    }
    let c = s[1];
    if c == '"' || c == '\\' || c == '/' {
        return Some((c, 2));
    }
    if c == 'b' {
        return Some(('\x08', 2));
    }
    if c == 'f' {
        return Some(('\x0c', 2));
    }
    if c == 'n' {
        return Some(('\n', 2));
    }
    if c == 'r' {
        return Some(('\r', 2));
    }
    if c == 't' {
        return Some(('\t', 2));
    }
    if c != 'u' {
        return None;
    }
    let unit = match read_hex4(s, 2) {
        Some(unit) => unit,
        None => return None,
    };
    if unit < 0xd800 || 0xe000 <= unit {
        return match char::from_u32(unit) {
            Some(c) => Some((c, 6)),
            None => None,
        };
    }
    if unit >= 0xdc00 || len < 12 || s[6] != '\\' || s[7] != 'u' {
        return None;
    }
    match read_hex4(s, 8) {
        Some(low) => {
            if 0xdc00 <= low && low < 0xe000 {
                match char::from_u32(0x10000 + (unit - 0xd800) * 0x400 + (low - 0xdc00)) {
                    Some(c) => Some((c, 12)),
                    None => None,
                }
            } else {
                None
            }
        },
        None => None,
    }
}

/// Undoes all escapes.
pub fn unescape(s: &[char]) -> (r: String)
    ensures
        r@ == unescaped(s@),
{
    let len = s.len();
    let mut text = String::new();
    let mut i: usize = 0;
    assert(s@.skip(0) =~= s@);
    assert(text@ + unescaped(s@) =~= unescaped(s@));
    while i < len
        invariant
            len == s@.len(),
            i <= len,
            text@ + unescaped(s@.skip(i as int)) == unescaped(s@),
        decreases len - i,
    {
        let rest = vstd::slice::slice_subrange(s, i, len);
        let ghost was = text@;
        assert(rest@ =~= s@.skip(i as int));
        match read_escape(rest) {
            Some((c, n)) => {
                text.push(c);
                assert(rest@.skip(n as int) =~= s@.skip(i + n));
                assert(was.push(c) + unescaped(s@.skip(i + n)) =~= was + (seq![c] + unescaped(
                    s@.skip(i + n),
                )));
                i += n;
            },
            None => {
                let c = s[i];
                text.push(c);
                assert(rest@.skip(1) =~= s@.skip(i + 1));
                assert(was.push(c) + unescaped(s@.skip(i + 1)) =~= was + (seq![c] + unescaped(
                    s@.skip(i + 1),
                )));
                i += 1;
            },
        }
    }
    assert(text@ + unescaped(s@.skip(len as int)) =~= text@);
    text
}

// ---------------------------------------------------------------------------------------------
// Writing
// ---------------------------------------------------------------------------------------------

/// A hexadecimal digit.
pub open spec fn hex_char(d: int) -> char {
    if d < 10 {
        ('0' as int + d) as char
    } else {
        ('a' as int + d - 10) as char
    }
}

/// How a character is written: a quotation mark and a backslash behind a backslash, a control
/// character by its number, and any other as it is.
pub open spec fn escape_of(c: char) -> Seq<char> {
    if c == '"' || c == '\\' {
        seq!['\\', c]
    } else if c <= '\x1f' {
        seq!['\\', 'u', '0', '0', hex_char(c as int / 16), hex_char(c as int % 16)]
    } else {
        seq![c]
    }
}

/// How a text is written.
pub open spec fn escaped(s: Seq<char>) -> Seq<char>
    decreases s.len(),
{
    if s.len() == 0 {
        Seq::empty()
    } else {
        escape_of(s[0]) + escaped(s.skip(1))
    }
}

fn code_of(c: char) -> (r: u32)
    ensures
        r as int == c as int,
{
    c as u32
}

fn write_hex(d: u32) -> (r: char)
    requires
        d < 16,
    ensures
        r == hex_char(d as int),
{
    if d < 10 {
        (48 + d as u8) as char
    } else {
        (87 + d as u8) as char
    }
}

/// Writes a text so that it can stand between quotation marks.
pub fn escape(s: &str) -> (r: String)
    ensures
        r@ == escaped(s@),
{
    let chars = crate::text::to_chars(s);
    let len = chars.len();
    let mut text = String::new();
    assert(s@.skip(0) =~= s@);
    assert(text@ + escaped(s@) =~= escaped(s@));
    for i in 0..len
        invariant
            len == chars@.len(),
            chars@ == s@,
            text@ + escaped(s@.skip(i as int)) == escaped(s@),
    {
        let c = chars[i];
        let ghost was = text@;
        if c == '"' || c == '\\' {
            text.push('\\');
            text.push(c);
        } else if c <= '\x1f' {
            text.push('\\');
            text.push('u');
            text.push('0');
            text.push('0');
            let code = code_of(c);
            text.push(write_hex(code / 16));
            text.push(write_hex(code % 16));
        } else {
            text.push(c);
        }
        assert(text@ =~= was + escape_of(c));
        assert(s@.skip(i as int).skip(1) =~= s@.skip(i + 1));
        assert(was + escape_of(c) + escaped(s@.skip(i + 1)) =~= was + (escape_of(c) + escaped(
            s@.skip(i + 1),
        )));
    }
    assert(text@ + escaped(s@.skip(len as int)) =~= text@);
    text
}

// ---------------------------------------------------------------------------------------------
// Laws
// ---------------------------------------------------------------------------------------------

/// Whether `s` can stand between quotation marks: the mark behind it is the first that ends it.
pub open spec fn is_literal(s: Seq<char>) -> bool {
    literal_end(s.push('"'), 0) == Some(s.len() as int)
}

/// The end of a text does not depend on what stands around it.
pub proof fn lemma_literal_end_moved(s: Seq<char>, part: Seq<char>, at: int, from: int)
    requires
        0 <= from,
        0 <= at,
        at + part.len() <= s.len(),
        forall|k: int| 0 <= k < part.len() ==> s[at + k] == #[trigger] part[k],
        literal_end(part, from) is Some,
    ensures
        literal_end(s, at + from) == Some(at + literal_end(part, from)->0),
    decreases part.len() - from,
{
    lemma_literal_end(part, from);
    assert(s[at + from] == part[from]);
    if part[from] != '"' {
        if part[from] == '\\' {
            lemma_literal_end(part, from + 2);
            lemma_literal_end_moved(s, part, at, from + 2);
        } else {
            lemma_literal_end_moved(s, part, at, from + 1);
        }
    }
}

/// A text that can stand between quotation marks is found there.
pub proof fn lemma_literal_stands(s: Seq<char>, from: int, text: Seq<char>)
    requires
        0 <= from,
        from + text.len() < s.len(),
        s.subrange(from, from + text.len()) == text,
        s[from + text.len()] == '"',
        is_literal(text),
    ensures
        literal_end(s, from) == Some(from + text.len()),
{
    let part = text.push('"');
    assert forall|k: int| 0 <= k < part.len() implies s[from + k] == #[trigger] part[k] by {
        if k < text.len() {
            assert(s.subrange(from, from + text.len())[k] == s[from + k]);
        }
    }
    lemma_literal_end_moved(s, part, from, 0);
}

/// What is written for a character ends no text, and is read as that character.
proof fn lemma_escape_of(c: char, rest: Seq<char>)
    ensures
        literal_end(escape_of(c) + rest, 0) == literal_end(
            escape_of(c) + rest,
            escape_of(c).len() as int,
        ),
        unescaped(escape_of(c) + rest) == seq![c] + unescaped(rest),
{
    let head = escape_of(c);
    let whole = head + rest;
    assert(whole.skip(head.len() as int) =~= rest);
    assert(whole[0] == head[0]);
    if c == '"' || c == '\\' {
        assert(whole[1] == c);
        assert(escape_at(whole) == Some((c, 2int)));
    } else if c <= '\x1f' {
        assert(whole[1] == 'u' && whole[2] == '0' && whole[3] == '0' && whole[4] == head[4]
            && whole[5] == head[5]);
        assert(literal_end(whole, 5) == literal_end(whole, 6));
        assert(literal_end(whole, 4) == literal_end(whole, 5));
        assert(literal_end(whole, 3) == literal_end(whole, 4));
        assert(literal_end(whole, 2) == literal_end(whole, 3));
        assert(hex_value(head[4]) == Some(c as int / 16));
        assert(hex_value(head[5]) == Some(c as int % 16));
        assert(hex4(whole, 2) == Some(c as int));
        assert(escape_at(whole) == Some((c, 6int)));
    } else {
        assert(escape_at(whole) is None);
    }
}

/// Every text can be written between quotation marks, and reads back as it was.
pub proof fn law_escaped_text_reads_back(s: Seq<char>)
    ensures
        is_literal(escaped(s)),
        unescaped(escaped(s)) == s,
    decreases s.len(),
{
    if s.len() == 0 {
        assert(escaped(s).push('"')[0] == '"');
        assert(unescaped(escaped(s)) =~= s);
    } else {
        let c = s[0];
        let rest = s.skip(1);
        let head = escape_of(c);
        let tail = escaped(rest);
        let whole = head + tail;
        law_escaped_text_reads_back(rest);
        let marked = whole.push('"');
        let part = tail.push('"');
        assert forall|k: int| 0 <= k < part.len() implies marked[head.len() + k]
            == #[trigger] part[k] by {}
        lemma_literal_end_moved(marked, part, head.len() as int, 0);
        assert(marked =~= head + part);
        lemma_escape_of(c, part);
        lemma_escape_of(c, tail);
        assert(seq![c] + rest =~= s);
    }
}

/// A text without quotation marks and backslashes can stand between quotation marks as it is.
pub proof fn law_plain_text_is_its_own_notation(s: Seq<char>)
    requires
        !s.contains('"'),
        !s.contains('\\'),
    ensures
        is_literal(s),
        unescaped(s) == s,
    decreases s.len(),
{
    if s.len() == 0 {
        assert(s.push('"')[0] == '"');
        assert(unescaped(s) =~= s);
    } else {
        let rest = s.skip(1);
        assert(s.contains(s[0]));
        assert forall|c: char| rest.contains(c) implies s.contains(c) by {
            let i = choose|i: int| 0 <= i < rest.len() && rest[i] == c;
            assert(s[i + 1] == c);
        }
        law_plain_text_is_its_own_notation(rest);
        let marked = s.push('"');
        let part = rest.push('"');
        assert forall|k: int| 0 <= k < part.len() implies marked[1 + k] == #[trigger] part[k] by {}
        lemma_literal_end_moved(marked, part, 1, 0);
        assert(marked[0] == s[0]);
        assert(seq![s[0]] + rest =~= s);
    }
}

/// The escapes of JSON are undone one by one: the short ones, and four hexadecimal digits for any
/// character of the basic plane.
pub proof fn law_escapes_are_undone_one_by_one(rest: Seq<char>, c: char)
    ensures
        unescaped(Seq::empty()).len() == 0,
        c != '\\' ==> unescaped(seq![c] + rest) == seq![c] + unescaped(rest),
        unescaped(seq!['\\', '"'] + rest) == seq!['"'] + unescaped(rest),
        unescaped(seq!['\\', '\\'] + rest) == seq!['\\'] + unescaped(rest),
        unescaped(seq!['\\', '/'] + rest) == seq!['/'] + unescaped(rest),
        unescaped(seq!['\\', 'b'] + rest) == seq!['\x08'] + unescaped(rest),
        unescaped(seq!['\\', 'f'] + rest) == seq!['\x0c'] + unescaped(rest),
        unescaped(seq!['\\', 'n'] + rest) == seq!['\n'] + unescaped(rest),
        unescaped(seq!['\\', 'r'] + rest) == seq!['\r'] + unescaped(rest),
        unescaped(seq!['\\', 't'] + rest) == seq!['\t'] + unescaped(rest),
{
    assert((seq![c] + rest).skip(1) =~= rest);
    assert((seq!['\\', '"'] + rest).skip(2) =~= rest);
    assert((seq!['\\', '\\'] + rest).skip(2) =~= rest);
    assert((seq!['\\', '/'] + rest).skip(2) =~= rest);
    assert((seq!['\\', 'b'] + rest).skip(2) =~= rest);
    assert((seq!['\\', 'f'] + rest).skip(2) =~= rest);
    assert((seq!['\\', 'n'] + rest).skip(2) =~= rest);
    assert((seq!['\\', 'r'] + rest).skip(2) =~= rest);
    assert((seq!['\\', 't'] + rest).skip(2) =~= rest);
}

/// A character of the basic plane may be written by its number, in hexadecimal digits of either
/// case.
pub proof fn law_numbered_escape_is_undone(
    digits: Seq<char>,
    values: Seq<int>,
    rest: Seq<char>,
)
    requires
        digits.len() == 4,
        values.len() == 4,
        forall|i: int|
            0 <= i < 4 ==> {
                let d = #[trigger] digits[i];
                ||| '0' <= d <= '9' && values[i] == d as int - '0' as int
                ||| 'a' <= d <= 'f' && values[i] == d as int - 'a' as int + 10
                ||| 'A' <= d <= 'F' && values[i] == d as int - 'A' as int + 10
            },
        ({
            let unit = values[0] * 4096 + values[1] * 256 + values[2] * 16 + values[3];
            unit < 0xd800 || 0xe000 <= unit
        }),
    ensures
        unescaped(seq!['\\', 'u'] + digits + rest) == seq![
            (values[0] * 4096 + values[1] * 256 + values[2] * 16 + values[3]) as char,
        ] + unescaped(rest),
{
    let s = seq!['\\', 'u'] + digits + rest;
    assert(s[2] == digits[0] && s[3] == digits[1] && s[4] == digits[2] && s[5] == digits[3]);
    assert(s[0] == '\\' && s[1] == 'u');
    assert(hex4(s, 2) == Some(
        values[0] * 4096 + values[1] * 256 + values[2] * 16 + values[3],
    ));
    assert(s.skip(6) =~= rest);
}

/// A text goes on until its first quotation mark: a plain character and an escaped one do not end
/// it.
pub proof fn law_text_goes_on_until_its_mark(s: Seq<char>, from: int)
    requires
        0 <= from,
    ensures
        from >= s.len() ==> literal_end(s, from) is None,
        from < s.len() && s[from] == '"' ==> literal_end(s, from) == Some(from),
        from < s.len() && s[from] == '\\' ==> literal_end(s, from) == literal_end(s, from + 2),
        from < s.len() && s[from] != '"' && s[from] != '\\' ==> literal_end(s, from)
            == literal_end(s, from + 1),
{
}

/// Only quotation marks, backslashes and control characters are escaped; a text without them is
/// written as it is.
pub proof fn law_plain_text_is_written_as_it_is(s: Seq<char>)
    requires
        forall|i: int|
            0 <= i < s.len() ==> #[trigger] s[i] != '"' && s[i] != '\\' && s[i] > '\x1f',
    ensures
        escaped(s) == s,
    decreases s.len(),
{
    if s.len() > 0 {
        let rest = s.skip(1);
        assert forall|i: int| 0 <= i < rest.len() implies #[trigger] rest[i] != '"' && rest[i]
            != '\\' && rest[i] > '\x1f' by {
            assert(rest[i] == s[i + 1]);
        }
        law_plain_text_is_written_as_it_is(rest);
        assert(s[0] != '"');
        assert(seq![s[0]] + rest =~= s);
    } else {
        assert(escaped(s) =~= s);
    }
}

/// A character beyond the basic plane may be written by the two halves of its surrogate pair.
pub proof fn law_surrogate_pair_is_undone(s: Seq<char>, high: int, low: int, rest: Seq<char>)
    requires
        s.len() == 12,
        s[0] == '\\' && s[1] == 'u' && s[6] == '\\' && s[7] == 'u',
        hex4(s, 2) == Some(high),
        hex4(s, 8) == Some(low),
        0xd800 <= high < 0xdc00,
        0xdc00 <= low < 0xe000,
    ensures
        unescaped(s + rest) == seq![
            (0x10000 + (high - 0xd800) * 0x400 + (low - 0xdc00)) as char,
        ] + unescaped(rest),
{
    let whole = s + rest;
    assert forall|i: int| 0 <= i < 12 implies whole[i] == #[trigger] s[i] by {}
    assert(hex4(whole, 2) == Some(high));
    assert(hex4(whole, 8) == Some(low));
    assert(whole.skip(12) =~= rest);
}

} // verus!
