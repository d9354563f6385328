//! Text as a sequence of characters: decimal numbers, searching, splitting and trimming.

use vstd::prelude::*;

verus! {

/// `String::push` appends one character.
pub assume_specification[ String::push ](s: &mut String, ch: char)
    ensures
        final(s)@ == old(s)@.push(ch),
;

/// The characters of `s`, in order.
pub fn to_chars(s: &str) -> (r: Vec<char>)
    ensures
        r@ == s@,
{
    let mut chars: Vec<char> = Vec::new();
    for c in it: s.chars()
        invariant
            it.seq() == s@,
            chars@ == it.seq().take(it.index()),
    {
        chars.push(c);
    }
    chars
}

/// The text made of `chars[from..to]`.
pub fn from_chars(chars: &[char], from: usize, to: usize) -> (r: String)
    requires
        from <= to <= chars@.len(),
    ensures
        r@ == chars@.subrange(from as int, to as int),
{
    let mut text = String::new();
    for i in from..to
        invariant
            from <= i <= to <= chars@.len(),
            text@ == chars@.subrange(from as int, i as int),
    {
        text.push(chars[i]);
        assert(chars@.subrange(from as int, i + 1) == chars@.subrange(from as int, i as int).push(
            chars@[i as int],
        ));
    }
    text
}

/// Whether two texts hold the same characters.
pub fn same_text(a: &str, b: &str) -> (r: bool)
    ensures
        r == (a@ == b@),
{
    let left = to_chars(a);
    let right = to_chars(b);
    if left.len() != right.len() {
        return false;
    }
    for i in 0..left.len()
        invariant
            left@ == a@,
            right@ == b@,
            left@.len() == right@.len(),
            forall|j: int| 0 <= j < i ==> left@[j] == right@[j],
    {
        if left[i] != right[i] {
            assert(a@[i as int] != b@[i as int]);
            return false;
        }
    }
    assert(left@ =~= right@);
    true
}

/// The views of a list of texts.
pub open spec fn texts(list: Seq<String>) -> Seq<Seq<char>> {
    list.map_values(|s: String| s@)
}

// ---------------------------------------------------------------------------------------------
// Decimal numbers
// ---------------------------------------------------------------------------------------------

/// The character of a decimal digit.
pub open spec fn digit_char(d: nat) -> char
    recommends
        d < 10,
{
    (48 + d) as char
}

/// The decimal notation of a number, without leading zeros.
pub open spec fn decimal(n: nat) -> Seq<char>
    decreases n,
{
    if n < 10 {
        seq![digit_char(n)]
    } else {
        decimal(n / 10).push(digit_char(n % 10))
    }
}

/// Writes `n` in decimal notation.
pub fn to_decimal(n: u64) -> (r: String)
    ensures
        r@ == decimal(n as nat),
    decreases n,
{
    if n < 10 {
        let mut text = String::new();
        text.push(digit(n));
        assert(text@ == seq![digit_char(n as nat)]);
        text
    } else {
        let mut text = to_decimal(n / 10);
        text.push(digit(n % 10));
        text
    }
}

fn digit(d: u64) -> (c: char)
    requires
        d < 10,
    ensures
        c == digit_char(d as nat),
{
    (48 + d as u8) as char
}

spec fn pow10(k: nat) -> nat
    decreases k,
{
    if k == 0 {
        1
    } else {
        10 * pow10((k - 1) as nat)
    }
}

proof fn lemma_decimal_below_power(n: nat, k: nat)
    requires
        0 < k,
        n < pow10(k),
    ensures
        1 <= decimal(n).len() <= k,
    decreases k,
{
    if n >= 10 {
        reveal_with_fuel(pow10, 2);
        if k > 1 {
            lemma_decimal_below_power(n / 10, (k - 1) as nat);
        }
    }
}

/// A machine word takes at most twenty decimal digits.
pub proof fn lemma_decimal_len(n: u64)
    ensures
        1 <= decimal(n as nat).len() <= 20,
{
    reveal_with_fuel(pow10, 21);
    assert(pow10(20) == 100_000_000_000_000_000_000);
    lemma_decimal_below_power(n as nat, 20);
}

/// Whether a character is an ASCII decimal digit.
pub open spec fn is_digit(c: char) -> bool {
    '0' <= c <= '9'
}

/// The number that a run of decimal digits denotes.
pub open spec fn digits_value(s: Seq<char>) -> nat
    decreases s.len(),
{
    if s.len() == 0 {
        0
    } else {
        (digits_value(s.drop_last()) * 10 + (s.last() as nat - '0' as nat)) as nat
    }
}

/// `s` without the plus sign that may stand in front of a number.
pub open spec fn without_plus(s: Seq<char>) -> Seq<char> {
    if s.len() > 0 && s[0] == '+' {
        s.skip(1)
    } else {
        s
    }
}

/// The number that `s` denotes: an optional plus sign, then decimal digits and nothing else, for
/// a value that fits in 64 bits.
pub open spec fn number(s: Seq<char>) -> Option<u64> {
    let digits = without_plus(s);
    if digits.len() > 0 && (forall|i: int| 0 <= i < digits.len() ==> is_digit(#[trigger] digits[i]))
        && digits_value(digits) <= u64::MAX {
        Some(digits_value(digits) as u64)
    } else {
        None
    }
}

proof fn lemma_digits_value_grows(s: Seq<char>, i: int)
    requires
        0 <= i <= s.len(),
        forall|j: int| 0 <= j < s.len() ==> is_digit(#[trigger] s[j]),
    ensures
        digits_value(s.take(i)) <= digits_value(s),
    decreases s.len(),
{
    if i == s.len() {
        assert(s.take(i) == s);
    } else {
        let t = s.drop_last();
        lemma_digits_value_grows(t, i);
        assert(t.take(i) == s.take(i));
        assert(is_digit(s[s.len() - 1]));
    }
}

/// Reads a number.
pub fn parse_u64(s: &str) -> (r: Option<u64>)
    ensures
        r == number(s@),
{
    let chars = to_chars(s);
    let start: usize = if chars.len() > 0 && chars[0] == '+' {
        1
    } else {
        0
    };
    let ghost digits = without_plus(s@);
    assert(digits == s@.skip(start as int));
    if start == chars.len() {
        return None;
    }
    let mut value: u64 = 0;
    let mut overflow = false;
    for i in start..chars.len()
        invariant
            start <= i <= chars@.len(),
            chars@ == s@,
            digits == s@.skip(start as int),
            digits == without_plus(s@),
            forall|j: int| 0 <= j < i - start ==> is_digit(#[trigger] digits[j]),
            overflow ==> digits_value(digits.take(i - start)) > u64::MAX,
            !overflow ==> value == digits_value(digits.take(i - start)),
    {
        let c = chars[i];
        if c < '0' || c > '9' {
            assert(!is_digit(digits[i - start]));
            return None;
        }
        assert(digits.take(i + 1 - start).drop_last() == digits.take(i - start));
        assert(digits.take(i + 1 - start).last() == c);
        if !overflow {
            let d: u64 = (c as u32 - '0' as u32) as u64;
            if value > (u64::MAX - d) / 10 {
                overflow = true;
            } else {
                value = value * 10 + d;
            }
        }
    }
    assert(digits.take(digits.len() as int) == digits);
    if overflow {
        None
    } else {
        Some(value)
    }
}

/// The decimal notation of a number is made of digits, which denote the number.
pub proof fn lemma_decimal_digits(n: nat)
    ensures
        decimal(n).len() > 0,
        forall|i: int| 0 <= i < decimal(n).len() ==> is_digit(#[trigger] decimal(n)[i]),
        digits_value(decimal(n)) == n,
    decreases n,
{
    if n < 10 {
        reveal_with_fuel(digits_value, 2);
        assert(decimal(n).drop_last() == Seq::<char>::empty());
        assert(decimal(n).last() == digit_char(n));
    } else {
        lemma_decimal_digits(n / 10);
        assert(decimal(n).drop_last() == decimal(n / 10));
        assert(decimal(n).last() == digit_char(n % 10));
        assert forall|i: int| 0 <= i < decimal(n).len() implies is_digit(
            #[trigger] decimal(n)[i],
        ) by {
            if i < decimal(n / 10).len() {
                assert(decimal(n)[i] == decimal(n / 10)[i]);
            }
        }
    }
}

/// Reading the decimal notation of a number gives the number back.
pub proof fn law_number_of_decimal(n: u64)
    ensures
        number(decimal(n as nat)) == Some(n),
{
    lemma_decimal_digits(n as nat);
    let s = decimal(n as nat);
    assert(is_digit(s[0]));
    assert(without_plus(s) == s);
}

// ---------------------------------------------------------------------------------------------
// Searching and splitting
// ---------------------------------------------------------------------------------------------

/// Whether `pattern` stands in `s` at position `i`.
pub open spec fn occurs_at(s: Seq<char>, pattern: Seq<char>, i: int) -> bool {
    &&& 0 <= i
    &&& i + pattern.len() <= s.len()
    &&& s.subrange(i, i + pattern.len()) == pattern
}

/// The first position at or after `from` at which `pattern` stands in `s`.
pub open spec fn position_from(s: Seq<char>, pattern: Seq<char>, from: int) -> Option<int>
    decreases s.len() - from + 1,
{
    if from + pattern.len() > s.len() {
        None
    } else if occurs_at(s, pattern, from) {
        Some(from)
    } else {
        position_from(s, pattern, from + 1)
    }
}

/// `position_from` finds the first occurrence, and finds one wherever there is one.
pub proof fn lemma_position_from(s: Seq<char>, pattern: Seq<char>, from: int)
    requires
        0 <= from,
    ensures
        match position_from(s, pattern, from) {
            Some(i) => from <= i && occurs_at(s, pattern, i) && (forall|j: int|
                from <= j < i ==> !#[trigger] occurs_at(s, pattern, j)),
            None => forall|j: int| from <= j ==> !#[trigger] occurs_at(s, pattern, j),
        },
    decreases s.len() - from + 1,
{
    if from + pattern.len() <= s.len() && !occurs_at(s, pattern, from) {
        lemma_position_from(s, pattern, from + 1);
    }
}

/// An occurrence with none before it is the first.
pub proof fn lemma_first_position(s: Seq<char>, pattern: Seq<char>, from: int, at: int)
    requires
        0 <= from <= at,
        occurs_at(s, pattern, at),
        forall|j: int| from <= j < at ==> !#[trigger] occurs_at(s, pattern, j),
    ensures
        position_from(s, pattern, from) == Some(at),
{
    lemma_position_from(s, pattern, from);
}

/// Whether `pattern` stands in `s` at position `i`.
pub fn stands_at(s: &[char], pattern: &[char], i: usize) -> (r: bool)
    ensures
        r == occurs_at(s@, pattern@, i as int),
{
    if i > s.len() || pattern.len() > s.len() - i {
        return false;
    }
    let len = s.len();
    for k in 0..pattern.len()
        invariant
            len == s@.len(),
            i + pattern@.len() <= len,
            forall|j: int| 0 <= j < k ==> s@[i + j] == pattern@[j],
    {
        if s[i + k] != pattern[k] {
            assert(s@.subrange(i as int, i + pattern@.len())[k as int] != pattern@[k as int]);
            return false;
        }
    }
    assert(s@.subrange(i as int, i + pattern@.len()) == pattern@);
    true
}

/// Finds the first occurrence of `pattern` in `s` at or after `from`.
pub fn find_from(s: &[char], pattern: &[char], from: usize) -> (r: Option<usize>)
    requires
        from <= s@.len(),
    ensures
        match r {
            Some(i) => position_from(s@, pattern@, from as int) == Some(i as int),
            None => position_from(s@, pattern@, from as int) is None,
        },
        r matches Some(i) ==> from <= i && i + pattern@.len() <= s@.len(),
{
    let mut i = from;
    while pattern.len() <= s.len() - i
        invariant
            from <= i <= s@.len(),
            position_from(s@, pattern@, from as int) == position_from(s@, pattern@, i as int),
        decreases s@.len() - i,
    {
        if stands_at(s, pattern, i) {
            return Some(i);
        }
        if i == s.len() {
            assert(position_from(s@, pattern@, i + 1) is None);
            return None;
        }
        i += 1;
    }
    None
}

/// Whether `s` contains `pattern`.
pub open spec fn has_text(s: Seq<char>, pattern: Seq<char>) -> bool {
    exists|i: int| occurs_at(s, pattern, i)
}

/// Whether `s` contains `pattern`.
pub fn contains_text(s: &str, pattern: &str) -> (r: bool)
    ensures
        r == has_text(s@, pattern@),
{
    let s_chars = to_chars(s);
    let pattern_chars = to_chars(pattern);
    proof {
        lemma_position_from(s@, pattern@, 0);
    }
    find_from(&s_chars, &pattern_chars, 0).is_some()
}

/// Whether `s` begins with `prefix`.
pub fn has_prefix(s: &str, prefix: &str) -> (r: bool)
    ensures
        r == occurs_at(s@, prefix@, 0),
{
    stands_at(&to_chars(s), &to_chars(prefix), 0)
}

/// The pieces of `s` between the separators `c`; there is always one more piece than separators.
pub open spec fn pieces(s: Seq<char>, c: char) -> Seq<Seq<char>>
    decreases s.len(),
{
    if s.len() == 0 {
        seq![Seq::empty()]
    } else {
        let before = pieces(s.drop_last(), c);
        if s.last() == c {
            before.push(Seq::empty())
        } else {
            before.drop_last().push(before.last().push(s.last()))
        }
    }
}

/// Splits `s` at every `c`.
pub fn split_at_char(s: &[char], c: char) -> (r: Vec<String>)
    ensures
        texts(r@) == pieces(s@, c),
        r@.len() >= 1,
{
    let mut parts: Vec<String> = Vec::new();
    let mut current = String::new();
    assert(s@.take(0) == Seq::<char>::empty());
    assert(texts(parts@).push(current@) == pieces(s@.take(0), c));
    for i in 0..s.len()
        invariant
            texts(parts@).push(current@) == pieces(s@.take(i as int), c),
    {
        let ghost before = pieces(s@.take(i as int), c);
        let ghost was = texts(parts@);
        assert(s@.take(i + 1).drop_last() == s@.take(i as int));
        assert(s@.take(i + 1).last() == s@[i as int]);
        assert(before.drop_last() == was);
        if s[i] == c {
            let done = current;
            current = String::new();
            parts.push(done);
            assert(texts(parts@) == before);
        } else {
            current.push(s[i]);
        }
    }
    assert(s@.take(s@.len() as int) == s@);
    let ghost was = texts(parts@);
    let ghost last = current@;
    parts.push(current);
    assert(texts(parts@) == was.push(last));
    parts
}

/// A text without the separator is its own single piece.
pub proof fn lemma_pieces_single(s: Seq<char>, c: char)
    requires
        !s.contains(c),
    ensures
        pieces(s, c) == seq![s],
    decreases s.len(),
{
    if s.len() > 0 {
        let t = s.drop_last();
        assert forall|x: char| t.contains(x) implies s.contains(x) by {
            let i = choose|i: int| 0 <= i < t.len() && t[i] == x;
            assert(s[i] == x);
        }
        lemma_pieces_single(t, c);
        assert(s.contains(s.last()));
        assert(t.push(s.last()) == s);
        assert(pieces(t, c).last() == t);
        assert(pieces(s, c) == seq![s]);
    } else {
        assert(s == Seq::<char>::empty());
    }
}

/// A separator and a text without one add that text as a last piece.
pub proof fn lemma_pieces_last(s: Seq<char>, c: char, tail: Seq<char>)
    requires
        !tail.contains(c),
    ensures
        pieces(s.push(c) + tail, c) == pieces(s, c).push(tail),
    decreases tail.len(),
{
    let whole = s.push(c) + tail;
    if tail.len() == 0 {
        assert(whole == s.push(c));
        assert(whole.drop_last() == s);
        assert(tail == Seq::<char>::empty());
    } else {
        let shorter = tail.drop_last();
        assert forall|x: char| shorter.contains(x) implies tail.contains(x) by {
            let i = choose|i: int| 0 <= i < shorter.len() && shorter[i] == x;
            assert(tail[i] == x);
        }
        lemma_pieces_last(s, c, shorter);
        assert(whole.drop_last() == s.push(c) + shorter);
        assert(whole.last() == tail.last());
        assert(tail.contains(tail.last()));
        let before = pieces(whole.drop_last(), c);
        assert(before.drop_last() == pieces(s, c));
        assert(shorter.push(tail.last()) == tail);
    }
}

/// Whether the piece `i` of `s` begins at `k`: separators stand around it, or the ends of `s`.
pub open spec fn piece_at(s: Seq<char>, c: char, i: int, k: int) -> bool {
    let parts = pieces(s, c);
    let end = k + parts[i].len();
    &&& 0 <= k
    &&& end <= s.len()
    &&& s.subrange(k, end) == parts[i]
    &&& if i == 0 {
        k == 0
    } else {
        k > 0 && s[k - 1] == c
    }
    &&& if i == parts.len() - 1 {
        end == s.len()
    } else {
        end < s.len() && s[end] == c
    }
}

/// Every piece stands in the text, and holds no separator.
pub proof fn lemma_piece_stands(s: Seq<char>, c: char, i: int)
    requires
        0 <= i < pieces(s, c).len(),
    ensures
        exists|k: int| piece_at(s, c, i, k),
        !pieces(s, c)[i].contains(c),
    decreases s.len(),
{
    let parts = pieces(s, c);
    if s.len() == 0 {
        assert(s.subrange(0, 0) =~= parts[i]);
        assert(piece_at(s, c, i, 0));
    } else {
        let t = s.drop_last();
        let before = pieces(t, c);
        lemma_pieces_some(t, c);
        if s.last() == c && i == parts.len() - 1 {
            assert(s.subrange(s.len() as int, s.len() as int) =~= parts[i]);
            assert(piece_at(s, c, i, s.len() as int));
        } else {
            lemma_piece_stands(t, c, i);
            let k = choose|k: int| piece_at(t, c, i, k);
            if i < parts.len() - 1 {
                assert(parts[i] == before[i]);
                assert(s.subrange(k, k + parts[i].len()) =~= t.subrange(k, k + parts[i].len()));
            } else {
                assert(parts[i] == before[i].push(s.last()));
                assert(s.subrange(k, s.len() as int) =~= t.subrange(k, t.len() as int).push(
                    s.last(),
                ));
                if parts[i].contains(c) {
                    let j = choose|j: int| 0 <= j < parts[i].len() && parts[i][j] == c;
                    assert(before[i][j] == c);
                    assert(before[i].contains(c));
                }
            }
            assert(piece_at(s, c, i, k));
        }
    }
}

/// There is always a piece.
pub proof fn lemma_pieces_some(s: Seq<char>, c: char)
    ensures
        pieces(s, c).len() >= 1,
    decreases s.len(),
{
    if s.len() > 0 {
        lemma_pieces_some(s.drop_last(), c);
    }
}

/// A text with a separator has more than one piece.
pub proof fn lemma_pieces_count(s: Seq<char>, c: char, i: int)
    requires
        0 <= i < s.len(),
        s[i] == c,
    ensures
        pieces(s, c).len() >= 2,
    decreases s.len(),
{
    lemma_pieces_some(s.drop_last(), c);
    if i < s.len() - 1 {
        lemma_pieces_count(s.drop_last(), c, i);
    }
}

/// Two texts without the separator are the pieces of what they give with a separator between
/// them.
pub proof fn lemma_pieces_pair(first: Seq<char>, c: char, second: Seq<char>)
    requires
        !first.contains(c),
        !second.contains(c),
    ensures
        pieces(first.push(c) + second, c) == seq![first, second],
{
    lemma_pieces_single(first, c);
    lemma_pieces_last(first, c, second);
    assert(seq![first].push(second) =~= seq![first, second]);
}

// ---------------------------------------------------------------------------------------------
// Lists of texts
// ---------------------------------------------------------------------------------------------

/// The first position from `from` on at which `name` stands in `list`.
pub open spec fn name_position(list: Seq<Seq<char>>, name: Seq<char>, from: int) -> Option<int>
    decreases list.len() - from,
{
    if from >= list.len() {
        None
    } else if list[from] == name {
        Some(from)
    } else {
        name_position(list, name, from + 1)
    }
}

/// `name_position` finds the first position of a name.
pub proof fn lemma_name_position(list: Seq<Seq<char>>, name: Seq<char>, from: int)
    requires
        0 <= from,
    ensures
        name_position(list, name, from) matches Some(p) ==> {
            &&& from <= p < list.len()
            &&& list[p] == name
            &&& forall|j: int| from <= j < p ==> list[j] != name
        },
        name_position(list, name, from) is None ==> forall|j: int|
            from <= j < list.len() ==> list[j] != name,
    decreases list.len() - from,
{
    if from < list.len() && list[from] != name {
        lemma_name_position(list, name, from + 1);
    }
}

/// Finds the first `name` in `list`.
pub fn find_name(list: &Vec<String>, name: &str) -> (r: Option<usize>)
    ensures
        match r {
            Some(i) => i < list@.len() && name_position(texts(list@), name@, 0) == Some(i as int),
            None => name_position(texts(list@), name@, 0) is None,
        },
{
    let mut i: usize = 0;
    while i < list.len()
        invariant
            i <= list@.len(),
            name_position(texts(list@), name@, i as int) == name_position(texts(list@), name@, 0),
        decreases list@.len() - i,
    {
        assert(texts(list@)[i as int] == list@[i as int]@);
        if same_text(list[i].as_str(), name) {
            return Some(i);
        }
        i += 1;
    }
    None
}

/// Whether `list` holds `name`.
pub fn holds(list: &Vec<String>, name: &String) -> (r: bool)
    ensures
        r == texts(list@).contains(name@),
{
    for i in 0..list.len()
        invariant
            forall|j: int| 0 <= j < i ==> texts(list@)[j] != name@,
    {
        if list[i] == *name {
            assert(texts(list@)[i as int] == name@);
            return true;
        }
        assert(texts(list@)[i as int] == list@[i as int]@);
    }
    false
}

/// A list without repetitions: each entry stands where it stood first.
pub open spec fn first_occurrences(list: Seq<Seq<char>>) -> Seq<Seq<char>>
    decreases list.len(),
{
    if list.len() == 0 {
        Seq::empty()
    } else {
        let before = first_occurrences(list.drop_last());
        if before.contains(list.last()) {
            before
        } else {
            before.push(list.last())
        }
    }
}

/// A list without repetitions keeps the order in which its entries first stood: of two entries,
/// the one that comes first stood in the list before any occurrence of the other.
pub proof fn law_first_occurrences_in_order(list: Seq<Seq<char>>, i: int, j: int)
    requires
        0 <= i < j < first_occurrences(list).len(),
    ensures
        exists|p: int|
            0 <= p < list.len() && #[trigger] list[p] == first_occurrences(list)[i] && forall|q: int|
                0 <= q <= p ==> list[q] != first_occurrences(list)[j],
    decreases list.len(),
{
    let before = first_occurrences(list.drop_last());
    let all = first_occurrences(list);
    law_first_occurrences(list.drop_last());
    if j < before.len() {
        law_first_occurrences_in_order(list.drop_last(), i, j);
        let p = choose|p: int|
            0 <= p < list.drop_last().len() && #[trigger] list.drop_last()[p] == before[i]
                && forall|q: int| 0 <= q <= p ==> list.drop_last()[q] != before[j];
        assert(list[p] == all[i]);
        assert forall|q: int| 0 <= q <= p implies list[q] != all[j] by {
            assert(list[q] == list.drop_last()[q]);
        }
    } else {
        assert(all == before.push(list.last()));
        assert(before.contains(before[i]));
        assert(list.drop_last().contains(before[i]));
        let p = choose|p: int| 0 <= p < list.drop_last().len() && list.drop_last()[p] == before[i];
        assert(list[p] == all[i]);
        assert forall|q: int| 0 <= q <= p implies list[q] != all[j] by {
            assert(list[q] == list.drop_last()[q]);
            assert(list.drop_last().contains(list.drop_last()[q]));
        }
    }
}

/// A list without repetitions has the same entries as the list, and each of them once.
pub proof fn law_first_occurrences(list: Seq<Seq<char>>)
    ensures
        first_occurrences(list).no_duplicates(),
        forall|x: Seq<char>|
            #![trigger first_occurrences(list).contains(x)]
            #![trigger list.contains(x)]
            first_occurrences(list).contains(x) <==> list.contains(x),
    decreases list.len(),
{
    if list.len() > 0 {
        let rest = list.drop_last();
        let before = first_occurrences(rest);
        let all = first_occurrences(list);
        law_first_occurrences(rest);
        assert forall|x: Seq<char>|
            #![trigger all.contains(x)]
            #![trigger list.contains(x)]
            all.contains(x) <==> list.contains(x) by {
            if all.contains(x) {
                let i = choose|i: int| 0 <= i < all.len() && all[i] == x;
                if i < before.len() {
                    assert(before[i] == x);
                    assert(before.contains(x));
                    assert(rest.contains(x));
                    let p = choose|p: int| 0 <= p < rest.len() && rest[p] == x;
                    assert(list[p] == x);
                } else {
                    assert(list[list.len() - 1] == x);
                }
            }
            if list.contains(x) {
                let p = choose|p: int| 0 <= p < list.len() && list[p] == x;
                if p < rest.len() {
                    assert(rest[p] == x);
                    assert(rest.contains(x));
                    let i = choose|i: int| 0 <= i < before.len() && before[i] == x;
                    assert(all[i] == x);
                } else if before.contains(x) {
                    let i = choose|i: int| 0 <= i < before.len() && before[i] == x;
                    assert(all[i] == x);
                } else {
                    assert(all[all.len() - 1] == x);
                }
            }
        }
        assert forall|i: int, j: int|
            0 <= i < all.len() && 0 <= j < all.len() && i != j implies all[i] != all[j] by {
            if i < before.len() {
                assert(before.contains(before[i]));
            }
            if j < before.len() {
                assert(before.contains(before[j]));
            }
        }
    } else {
        assert(list =~= Seq::<Seq<char>>::empty());
    }
}

// ---------------------------------------------------------------------------------------------
// Trimming
// ---------------------------------------------------------------------------------------------

/// `s` without the run of `c` at its end.
pub open spec fn without_trailing(s: Seq<char>, c: char) -> Seq<char>
    decreases s.len(),
{
    if s.len() > 0 && s.last() == c {
        without_trailing(s.drop_last(), c)
    } else {
        s
    }
}

/// What is left is the beginning of the text.
pub proof fn lemma_without_trailing(s: Seq<char>, c: char)
    ensures
        without_trailing(s, c).len() <= s.len(),
        without_trailing(s, c) == s.take(without_trailing(s, c).len() as int),
    decreases s.len(),
{
    let kept = without_trailing(s, c);
    if s.len() > 0 && s.last() == c {
        lemma_without_trailing(s.drop_last(), c);
        assert(s.take(kept.len() as int) =~= s.drop_last().take(kept.len() as int));
    } else {
        assert(s.take(kept.len() as int) =~= s);
    }
}

/// `s` without the run of `c` at its start.
pub open spec fn without_leading(s: Seq<char>, c: char) -> Seq<char>
    decreases s.len(),
{
    if s.len() > 0 && s.first() == c {
        without_leading(s.drop_first(), c)
    } else {
        s
    }
}

/// Drops the run of `c` at the end of `s`.
pub fn trim_end_char(s: &[char], c: char) -> (r: Vec<char>)
    ensures
        r@ == without_trailing(s@, c),
{
    let mut kept = vstd::slice::slice_to_vec(s);
    while kept.len() > 0 && kept[kept.len() - 1] == c
        invariant
            without_trailing(kept@, c) == without_trailing(s@, c),
        decreases kept@.len(),
    {
        let ghost was = kept@;
        let _ = kept.pop();
        assert(kept@ == was.drop_last());
    }
    kept
}

/// Drops the run of `c` at the start of `s`.
pub fn trim_start_char(s: &[char], c: char) -> (r: Vec<char>)
    ensures
        r@ == without_leading(s@, c),
{
    let mut start: usize = 0;
    assert(s@.skip(0) == s@);
    while start < s.len() && s[start] == c
        invariant
            start <= s@.len(),
            without_leading(s@.skip(start as int), c) == without_leading(s@, c),
        decreases s@.len() - start,
    {
        assert(s@.skip(start as int).drop_first() == s@.skip(start + 1));
        start += 1;
    }
    assert(s@.skip(start as int) == s@.subrange(start as int, s@.len() as int));
    vstd::slice::slice_to_vec(vstd::slice::slice_subrange(s, start, s.len()))
}

/// Whether a character has the Unicode `White_Space` property.
pub open spec fn white_space(c: char) -> bool {
    ||| '\u{9}' <= c <= '\u{d}'
    ||| c == '\u{20}'
    ||| c == '\u{85}'
    ||| c == '\u{a0}'
    ||| c == '\u{1680}'
    ||| '\u{2000}' <= c <= '\u{200a}'
    ||| c == '\u{2028}'
    ||| c == '\u{2029}'
    ||| c == '\u{202f}'
    ||| c == '\u{205f}'
    ||| c == '\u{3000}'
}

/// `char::is_whitespace` tells whether a character has the `White_Space` property of the Unicode
/// Character Database. The characters that have it are those that `white_space` lists.
pub assume_specification[ char::is_whitespace ](c: char) -> (r: bool)
    ensures
        r == white_space(c),
;

/// `s` without the white space at its start.
pub open spec fn trimmed_start(s: Seq<char>) -> Seq<char>
    decreases s.len(),
{
    if s.len() > 0 && white_space(s.first()) {
        trimmed_start(s.drop_first())
    } else {
        s
    }
}

/// `s` without the white space at its end.
pub open spec fn trimmed_end(s: Seq<char>) -> Seq<char>
    decreases s.len(),
{
    if s.len() > 0 && white_space(s.last()) {
        trimmed_end(s.drop_last())
    } else {
        s
    }
}

/// `s` without the white space around it.
pub open spec fn trimmed(s: Seq<char>) -> Seq<char> {
    trimmed_end(trimmed_start(s))
}

/// White space behind a text is dropped, such as the line end that a command writes.
pub proof fn law_trailing_white_space_is_dropped(s: Seq<char>, c: char)
    requires
        white_space(c),
    ensures
        trimmed(s.push(c)) == trimmed(s),
    decreases s.len(),
{
    let longer = s.push(c);
    if s.len() == 0 {
        reveal_with_fuel(trimmed_start, 2);
        assert(longer.drop_first() =~= s);
    } else if white_space(s.first()) {
        assert(longer.first() == s.first());
        assert(longer.drop_first() =~= s.drop_first().push(c));
        law_trailing_white_space_is_dropped(s.drop_first(), c);
    } else {
        assert(longer.first() == s.first());
        assert(longer.drop_last() =~= s);
    }
}

/// A text that neither begins nor ends with white space is kept as it is.
pub proof fn law_text_without_white_space_around_is_kept(s: Seq<char>)
    requires
        s.len() > 0 ==> !white_space(s.first()) && !white_space(s.last()),
    ensures
        trimmed(s) == s,
{
}

/// Drops the white space around `s`.
pub fn trim(s: &str) -> (r: String)
    ensures
        r@ == trimmed(s@),
{
    let chars = to_chars(s);
    let mut start: usize = 0;
    assert(s@.skip(0) == s@);
    while start < chars.len() && chars[start].is_whitespace()
        invariant
            chars@ == s@,
            start <= chars@.len(),
            trimmed_start(s@.skip(start as int)) == trimmed_start(s@),
        decreases chars@.len() - start,
    {
        assert(s@.skip(start as int).drop_first() == s@.skip(start + 1));
        start += 1;
    }
    assert(trimmed_start(s@) == s@.skip(start as int));
    let mut end: usize = chars.len();
    assert(s@.subrange(start as int, end as int) == s@.skip(start as int));
    while end > start && chars[end - 1].is_whitespace()
        invariant
            chars@ == s@,
            start <= end <= chars@.len(),
            trimmed_end(s@.subrange(start as int, end as int)) == trimmed(s@),
        decreases end,
    {
        assert(s@.subrange(start as int, end as int).drop_last() == s@.subrange(
            start as int,
            end - 1,
        ));
        end -= 1;
    }
    from_chars(&chars, start, end)
}

// ---------------------------------------------------------------------------------------------
// Laws of texts
// ---------------------------------------------------------------------------------------------

/// A list of texts has one view for each text, in order.
pub proof fn law_texts_one_by_one(list: Seq<String>)
    ensures
        texts(list).len() == list.len(),
        forall|i: int| 0 <= i < list.len() ==> #[trigger] texts(list)[i] == list[i]@,
{
}

/// A number below ten is one digit, and one more digit multiplies a number by ten. So a number is
/// written with digits alone, and without leading zeros.
pub proof fn law_decimal_digit_by_digit(n: nat, d: nat)
    requires
        d < 10,
    ensures
        decimal(d) == seq![('0' as int + d) as char],
        n > 0 ==> decimal(10 * n + d) == decimal(n).push(('0' as int + d) as char),
        n > 0 ==> decimal(n)[0] != '0',
        forall|i: int| 0 <= i < decimal(n).len() ==> '0' <= #[trigger] decimal(n)[i] <= '9',
    decreases n,
{
    lemma_decimal_digits(n);
    if n > 0 {
        assert((10 * n + d) / 10 == n);
        assert((10 * n + d) % 10 == d);
        if n >= 10 {
            law_decimal_digit_by_digit(n / 10, n % 10);
        }
    }
    assert forall|i: int| 0 <= i < decimal(n).len() implies '0' <= #[trigger] decimal(n)[i]
        <= '9' by {
        assert(is_digit(decimal(n)[i]));
    }
}

/// Numbers are read digit by digit. The empty text and a lone plus sign are none; one character is
/// a number exactly if it is a digit; and one more character goes on with a number exactly if it
/// is a digit and the result still fits in 64 bits. A plus sign in front changes nothing.
pub proof fn law_number_digit_by_digit(s: Seq<char>, c: char)
    ensures
        number(Seq::empty()) is None,
        number(seq!['+']) is None,
        '0' <= c <= '9' ==> number(seq![c]) == Some((c as int - '0' as int) as u64),
        !('0' <= c <= '9') ==> number(seq![c]) is None,
        s.len() > 0 && s != seq!['+'] ==> {
            &&& number(s.push(c)) is Some <==> number(s) is Some && '0' <= c <= '9' && number(s)->0
                * 10 + (c as int - '0' as int) <= u64::MAX
            &&& number(s.push(c)) is Some ==> number(s.push(c))->0 == number(s)->0 * 10 + (c as int
                - '0' as int)
        },
        s.len() > 0 && s[0] != '+' ==> number(seq!['+'] + s) == number(s),
{
    let one = seq![c];
    reveal_with_fuel(digits_value, 2);
    assert(one.drop_last() =~= Seq::<char>::empty());
    assert(without_plus(seq!['+']) =~= Seq::<char>::empty());
    assert(without_plus(Seq::<char>::empty()).len() == 0);
    if '0' <= c <= '9' {
        assert(without_plus(one) == one);
        assert(digits_value(one) == c as int - '0' as int);
    } else if c != '+' {
        assert(without_plus(one) == one);
        assert(!is_digit(one[0]));
    } else {
        assert(one =~= seq!['+']);
    }
    if s.len() > 0 && s != seq!['+'] {
        let digits = without_plus(s);
        let longer = without_plus(s.push(c));
        assert(longer =~= digits.push(c));
        assert(longer.drop_last() =~= digits);
        assert(digits.len() > 0) by {
            if s[0] == '+' && s.len() == 1 {
                assert(s =~= seq!['+']);
            }
        }
        assert(longer[longer.len() - 1] == c);
        assert forall|i: int| 0 <= i < digits.len() implies longer[i] == #[trigger] digits[i] by {}
        if number(s.push(c)) is Some {
            assert forall|i: int| 0 <= i < digits.len() implies is_digit(#[trigger] digits[i]) by {
                assert(is_digit(longer[i]));
            }
            assert(is_digit(longer[longer.len() - 1]));
        }
        if number(s) is Some && '0' <= c <= '9' {
            assert forall|i: int| 0 <= i < longer.len() implies is_digit(#[trigger] longer[i]) by {
                if i < digits.len() {
                    assert(is_digit(digits[i]));
                }
            }
        }
    }
    if s.len() > 0 && s[0] != '+' {
        assert(without_plus(seq!['+'] + s) =~= s);
    }
}

/// A pattern stands at a position exactly if all of its characters stand there one by one.
pub proof fn law_occurrence_char_by_char(s: Seq<char>, pattern: Seq<char>, i: int)
    ensures
        occurs_at(s, pattern, i) <==> 0 <= i && i + pattern.len() <= s.len() && forall|k: int|
            0 <= k < pattern.len() ==> s[i + k] == #[trigger] pattern[k],
{
    if occurs_at(s, pattern, i) {
        assert forall|k: int| 0 <= k < pattern.len() implies s[i + k] == #[trigger] pattern[k] by {
            assert(s.subrange(i, i + pattern.len())[k] == pattern[k]);
        }
    }
    if 0 <= i && i + pattern.len() <= s.len() && forall|k: int|
        0 <= k < pattern.len() ==> s[i + k] == #[trigger] pattern[k] {
        assert(s.subrange(i, i + pattern.len()) =~= pattern);
    }
}

/// A text contains a pattern exactly if it is the pattern with something before it and something
/// behind it.
pub proof fn law_contained_text_has_surroundings(s: Seq<char>, pattern: Seq<char>)
    ensures
        has_text(s, pattern) <==> exists|before: Seq<char>, behind: Seq<char>|
            s == #[trigger] (before + pattern + behind),
{
    if has_text(s, pattern) {
        let i = choose|i: int| occurs_at(s, pattern, i);
        assert(s =~= s.take(i) + pattern + s.skip(i + pattern.len())) by {
            law_occurrence_char_by_char(s, pattern, i);
        }
    }
    if exists|before: Seq<char>, behind: Seq<char>| s == #[trigger] (before + pattern + behind) {
        let (before, behind) = choose|before: Seq<char>, behind: Seq<char>|
            s == #[trigger] (before + pattern + behind);
        assert(s.subrange(before.len() as int, before.len() as int + pattern.len()) =~= pattern);
        assert(occurs_at(s, pattern, before.len() as int));
    }
}

/// What is dropped at the end of a text is all `c`, and what is left does not end with one.
pub proof fn law_trailing_run_is_dropped(s: Seq<char>, c: char)
    ensures
        ({
            let kept = without_trailing(s, c);
            &&& kept.len() <= s.len()
            &&& s.take(kept.len() as int) == kept
            &&& forall|i: int| kept.len() <= i < s.len() ==> #[trigger] s[i] == c
            &&& kept.len() > 0 ==> kept.last() != c
        }),
    decreases s.len(),
{
    lemma_without_trailing(s, c);
    if s.len() > 0 && s.last() == c {
        let shorter = s.drop_last();
        law_trailing_run_is_dropped(shorter, c);
        assert forall|i: int| without_trailing(s, c).len() <= i < s.len() implies #[trigger] s[i]
            == c by {
            if i < shorter.len() {
                assert(shorter[i] == c);
            }
        }
    }
}

/// What is dropped at the start of a text is all `c`, and what is left does not begin with one.
pub proof fn law_leading_run_is_dropped(s: Seq<char>, c: char)
    ensures
        ({
            let kept = without_leading(s, c);
            let dropped = s.len() - kept.len();
            &&& 0 <= dropped
            &&& s.skip(dropped) == kept
            &&& forall|i: int| 0 <= i < dropped ==> #[trigger] s[i] == c
            &&& kept.len() > 0 ==> kept.first() != c
        }),
    decreases s.len(),
{
    let kept = without_leading(s, c);
    if s.len() > 0 && s.first() == c {
        let shorter = s.drop_first();
        law_leading_run_is_dropped(shorter, c);
        let dropped = s.len() - kept.len();
        assert(s.skip(dropped) =~= shorter.skip(dropped - 1));
        assert forall|i: int| 0 <= i < dropped implies #[trigger] s[i] == c by {
            if i > 0 {
                assert(shorter[i - 1] == c);
            }
        }
    } else {
        assert(s.skip(0) =~= s);
    }
}

proof fn lemma_trimmed_start(s: Seq<char>)
    ensures
        ({
            let kept = trimmed_start(s);
            let dropped = s.len() - kept.len();
            &&& 0 <= dropped
            &&& s.skip(dropped) == kept
            &&& forall|i: int| 0 <= i < dropped ==> white_space(#[trigger] s[i])
            &&& kept.len() > 0 ==> !white_space(kept.first())
        }),
    decreases s.len(),
{
    let kept = trimmed_start(s);
    if s.len() > 0 && white_space(s.first()) {
        let shorter = s.drop_first();
        lemma_trimmed_start(shorter);
        let dropped = s.len() - kept.len();
        assert(s.skip(dropped) =~= shorter.skip(dropped - 1));
        assert forall|i: int| 0 <= i < dropped implies white_space(#[trigger] s[i]) by {
            if i > 0 {
                assert(white_space(shorter[i - 1]));
            }
        }
    } else {
        assert(s.skip(0) =~= s);
    }
}

proof fn lemma_trimmed_end(s: Seq<char>)
    ensures
        ({
            let kept = trimmed_end(s);
            &&& kept.len() <= s.len()
            &&& s.take(kept.len() as int) == kept
            &&& forall|i: int| kept.len() <= i < s.len() ==> white_space(#[trigger] s[i])
            &&& kept.len() > 0 ==> !white_space(kept.last())
        }),
    decreases s.len(),
{
    let kept = trimmed_end(s);
    if s.len() > 0 && white_space(s.last()) {
        let shorter = s.drop_last();
        lemma_trimmed_end(shorter);
        assert(s.take(kept.len() as int) =~= shorter.take(kept.len() as int));
        assert forall|i: int| kept.len() <= i < s.len() implies white_space(#[trigger] s[i]) by {
            if i < shorter.len() {
                assert(white_space(shorter[i]));
            }
        }
    } else {
        assert(s.take(s.len() as int) =~= s);
    }
}

/// Trimming takes out the middle of a text: all characters around it are white space, and it
/// neither begins nor ends with white space.
pub proof fn law_trimming_drops_white_space_around(s: Seq<char>)
    ensures
        exists|i: int|
            #![trigger s.subrange(i, i + trimmed(s).len())]
            {
                let kept = trimmed(s);
                &&& 0 <= i <= s.len() - kept.len()
                &&& s.subrange(i, i + kept.len()) == kept
                &&& forall|k: int|
                    0 <= k < s.len() && !(i <= k < i + kept.len()) ==> white_space(#[trigger] s[k])
                &&& kept.len() > 0 ==> !white_space(kept.first()) && !white_space(kept.last())
            },
{
    let start = trimmed_start(s);
    let kept = trimmed(s);
    lemma_trimmed_start(s);
    lemma_trimmed_end(start);
    let i = s.len() - start.len();
    assert(s.subrange(i, i + kept.len()) =~= start.take(kept.len() as int));
    assert forall|k: int| 0 <= k < s.len() && !(i <= k < i + kept.len()) implies white_space(
        #[trigger] s[k],
    ) by {
        if k >= i {
            assert(start[k - i] == s[k]);
        }
    }
    if kept.len() > 0 {
        assert(kept.first() == start.first());
    }
}

} // verus!
