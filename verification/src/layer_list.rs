//! The layer sizes of a configuration as text: numbers between commas.
//!
//! Every text gives a list: a field that is no number stands for 0.

use vstd::prelude::*;

verus! {

/// Whether `c` is white space: a character with the Unicode property
/// `White_Space`.
pub open spec fn is_space(c: char) -> bool {
    let u = c as u32;
    ||| 0x09 <= u <= 0x0d
    ||| u == 0x20
    ||| u == 0x85
    ||| u == 0xa0
    ||| u == 0x1680
    ||| 0x2000 <= u <= 0x200a
    ||| u == 0x2028
    ||| u == 0x2029
    ||| u == 0x202f
    ||| u == 0x205f
    ||| u == 0x3000
}

/// Whether `c` is one of the digits `0` to `9`.
pub open spec fn is_digit(c: char) -> bool {
    0x30 <= c as u32 <= 0x39
}

/// The value of a digit, and 0 for every other character.
pub open spec fn digit_of(c: char) -> nat {
    if is_digit(c) {
        (c as u32 - 0x30) as nat
    } else {
        0
    }
}

/// Whether `s` holds digits only.
pub open spec fn all_digits(s: Seq<char>) -> bool {
    forall|i: int| 0 <= i < s.len() ==> is_digit(#[trigger] s[i])
}

/// The number that a row of digits writes in base ten.
pub open spec fn number_of(s: Seq<char>) -> nat
    decreases s.len(),
{
    if s.len() == 0 {
        0
    } else {
        number_of(s.drop_last()) * 10 + digit_of(s.last())
    }
}

/// `s` without the white space at its start.
pub open spec fn trim_start(s: Seq<char>) -> Seq<char>
    decreases s.len(),
{
    if s.len() > 0 && is_space(s[0]) {
        trim_start(s.skip(1))
    } else {
        s
    }
}

/// `s` without the white space at its end.
pub open spec fn trim_end(s: Seq<char>) -> Seq<char>
    decreases s.len(),
{
    if s.len() > 0 && is_space(s.last()) {
        trim_end(s.drop_last())
    } else {
        s
    }
}

/// `s` without the white space at its start and at its end.
pub open spec fn trimmed(s: Seq<char>) -> Seq<char> {
    trim_end(trim_start(s))
}

/// The digits of a number as written: what follows a plus sign at the start,
/// or all of it where there is none.
pub open spec fn unsigned_part(s: Seq<char>) -> Seq<char> {
    if s.len() > 0 && s[0] == '+' {
        s.skip(1)
    } else {
        s
    }
}

/// The size that a field stands for. White space around it does not count. A
/// field that writes a number, at least one digit with or without a plus sign
/// before them, stands for that number if a `usize` can hold it. Every other
/// field stands for 0.
pub open spec fn size_of(field: Seq<char>) -> usize {
    let digits = unsigned_part(trimmed(field));
    if digits.len() > 0 && all_digits(digits) && number_of(digits) <= usize::MAX {
        number_of(digits) as usize
    } else {
        0
    }
}

/// The fields of a text: what stands before, between and after its commas.
/// A text of `n` commas has `n + 1` fields, some of which may be empty.
pub open spec fn fields(text: Seq<char>) -> Seq<Seq<char>>
    decreases text.len(),
{
    if text.len() == 0 {
        seq![Seq::<char>::empty()]
    } else {
        let before = fields(text.drop_last());
        if text.last() == ',' {
            before.push(Seq::<char>::empty())
        } else {
            before.update(before.len() - 1, before.last().push(text.last()))
        }
    }
}

/// The text that a row of fields comes from: the fields with a comma between
/// each two.
pub open spec fn joined(parts: Seq<Seq<char>>) -> Seq<char>
    decreases parts.len(),
{
    if parts.len() == 0 {
        Seq::<char>::empty()
    } else if parts.len() == 1 {
        parts[0]
    } else {
        joined(parts.drop_last()).push(',') + parts.last()
    }
}

/// The layer sizes that a text stands for: the size of each of its fields.
pub open spec fn sizes_of(text: Seq<char>) -> Seq<usize> {
    Seq::new(fields(text).len(), |k: int| size_of(fields(text)[k]))
}

/// The fields of a text hold no comma, there is at least one of them, and
/// with commas between them they make up the text again. No other row of
/// pieces does that, so this says what the fields are.
pub proof fn lemma_fields_rejoin(text: Seq<char>)
    ensures
        fields(text).len() >= 1,
        forall|k: int, i: int|
            0 <= k < fields(text).len() && 0 <= i < fields(text)[k].len() ==> (
            #[trigger] fields(text)[k][i]) != ',',
        joined(fields(text)) == text,
    decreases text.len(),
{
    if text.len() == 0 {
        assert(joined(fields(text)) =~= text);
    } else {
        let front = text.drop_last();
        lemma_fields_rejoin(front);
        let before = fields(front);
        let all = fields(text);
        if text.last() == ',' {
            assert(all.drop_last() =~= before);
            assert(joined(all) =~= text);
        } else {
            let grown = before.last().push(text.last());
            assert(all.last() == grown);
            if before.len() == 1 {
                assert(joined(before) == before[0]);
                assert(joined(all) =~= text);
            } else {
                assert(all.drop_last() =~= before.drop_last());
                assert(joined(before) == joined(before.drop_last()).push(',') + before.last());
                assert(joined(all) == joined(before.drop_last()).push(',') + grown);
                assert(text =~= front.push(text.last()));
                assert(joined(all) =~= text);
            }
        }
    }
}

/// A number is not less than what a part of its digits from the start writes.
pub proof fn lemma_number_grows(s: Seq<char>, k: int)
    requires
        0 <= k <= s.len(),
    ensures
        number_of(s.take(k)) <= number_of(s),
    decreases s.len(),
{
    if k == s.len() {
        assert(s.take(k) =~= s);
    } else {
        lemma_number_grows(s.drop_last(), k);
        assert(s.drop_last().take(k) =~= s.take(k));
    }
}

/// Cutting white space off the start of a text whose first `k` characters are
/// white space gives what cutting it off the rest gives.
proof fn lemma_trim_start_skips(s: Seq<char>, k: int)
    requires
        0 <= k <= s.len(),
        forall|i: int| 0 <= i < k ==> is_space(#[trigger] s[i]),
    ensures
        trim_start(s) == trim_start(s.skip(k)),
    decreases k,
{
    if k == 0 {
        assert(s.skip(0) =~= s);
    } else {
        assert(is_space(s[0]));
        lemma_trim_start_skips(s.skip(1), k - 1);
        assert(s.skip(1).skip(k - 1) =~= s.skip(k));
    }
}

/// Cutting white space off the end of a text whose characters from `k` on are
/// white space gives what cutting it off the part before `k` gives.
proof fn lemma_trim_end_takes(s: Seq<char>, k: int)
    requires
        0 <= k <= s.len(),
        forall|i: int| k <= i < s.len() ==> is_space(#[trigger] s[i]),
    ensures
        trim_end(s) == trim_end(s.take(k)),
    decreases s.len() - k,
{
    if k == s.len() {
        assert(s.take(k) =~= s);
    } else {
        assert(is_space(s[s.len() - 1]));
        lemma_trim_end_takes(s.drop_last(), k);
        assert(s.drop_last().take(k) =~= s.take(k));
    }
}

/// Whether `c` is white space.
fn space(c: char) -> (b: bool)
    ensures
        b == is_space(c),
{
    let u: u32 = c as u32;
    (0x09 <= u && u <= 0x0d) || u == 0x20 || u == 0x85 || u == 0xa0 || u == 0x1680 || (0x2000
        <= u && u <= 0x200a) || u == 0x2028 || u == 0x2029 || u == 0x202f || u == 0x205f || u
        == 0x3000
}

/// The size that the field `text[from..to]` stands for.
fn field_size(text: &[char], from: usize, to: usize) -> (size: usize)
    requires
        from <= to <= text@.len(),
    ensures
        size == size_of(text@.subrange(from as int, to as int)),
{
    let ghost field = text@.subrange(from as int, to as int);
    let mut a: usize = from;
    while a < to && space(text[a])
        invariant
            from <= a <= to <= text@.len(),
            forall|i: int| from <= i < a ==> is_space(#[trigger] text@[i]),
        decreases to - a,
    {
        a += 1;
    }
    let mut b: usize = to;
    while b > a && space(text[b - 1])
        invariant
            a <= b <= to <= text@.len(),
            forall|i: int| b <= i < to ==> is_space(#[trigger] text@[i]),
        decreases b,
    {
        b -= 1;
    }
    let ghost core = text@.subrange(a as int, b as int);
    proof {
        let rest = field.skip(a - from);
        assert(rest =~= text@.subrange(a as int, to as int));
        assert forall|i: int| 0 <= i < a - from implies is_space(#[trigger] field[i]) by {
            assert(field[i] == text@[from + i]);
        }
        lemma_trim_start_skips(field, a - from);
        if a < to {
            assert(rest[0] == text@[a as int]);
        }
        assert(trim_start(field) == rest);
        assert forall|i: int| b - a <= i < rest.len() implies is_space(#[trigger] rest[i]) by {
            assert(rest[i] == text@[a + i]);
        }
        lemma_trim_end_takes(rest, b - a);
        assert(rest.take(b - a) =~= core);
        if a < b {
            assert(core.last() == text@[b - 1]);
        }
        assert(trimmed(field) == core);
    }
    let mut c: usize = a;
    if c < b && text[c] == '+' {
        c += 1;
    }
    let ghost digits = text@.subrange(c as int, b as int);
    proof {
        if a < b {
            assert(core[0] == text@[a as int]);
        }
        assert(unsigned_part(core) =~= digits);
    }
    if c == b {
        return 0;
    }
    let mut value: usize = 0;
    let mut i: usize = c;
    while i < b
        invariant
            c <= i <= b <= text@.len(),
            c < b,
            from <= to <= text@.len(),
            digits == text@.subrange(c as int, b as int),
            digits == unsigned_part(trimmed(text@.subrange(from as int, to as int))),
            value == number_of(digits.take(i - c)),
            all_digits(digits.take(i - c)),
        decreases b - i,
    {
        let ch: char = text[i];
        let u: u32 = ch as u32;
        proof {
            assert(digits[i - c] == ch);
            assert(digits.take(i - c + 1).drop_last() =~= digits.take(i - c));
            assert(digits.take(i - c + 1).last() == ch);
        }
        if u < 0x30 || u > 0x39 {
            proof {
                assert(!is_digit(digits[i - c]));
            }
            return 0;
        }
        let d: usize = (u - 0x30) as usize;
        if value > (usize::MAX - d) / 10 {
            proof {
                assert(value * 10 + d > usize::MAX) by (nonlinear_arith)
                    requires
                        value > (usize::MAX - d) / 10,
                        0 <= d <= 9,
                ;
                assert(digit_of(ch) == d);
                assert(number_of(digits.take(i - c + 1)) == value * 10 + d);
                lemma_number_grows(digits, i - c + 1);
            }
            return 0;
        }
        proof {
            assert(value * 10 + d <= usize::MAX) by (nonlinear_arith)
                requires
                    value <= (usize::MAX - d) / 10,
                    0 <= d <= 9,
            ;
            assert(digit_of(ch) == d);
            assert(number_of(digits.take(i - c + 1)) == value * 10 + d);
            assert forall|k: int| 0 <= k < i - c + 1 implies is_digit(
                #[trigger] digits.take(i - c + 1)[k],
            ) by {
                if k < i - c {
                    assert(digits.take(i - c + 1)[k] == digits.take(i - c)[k]);
                }
            }
        }
        value = value * 10 + d;
        i += 1;
    }
    proof {
        assert(digits.take(b - c) =~= digits);
    }
    value
}

/// Reads the layer sizes off a text: the fields between its commas, each
/// with the white space around it cut off. A field that is no number, or a
/// number that no `usize` holds, gives 0.
pub fn parse_layer_sizes(text: &[char]) -> (sizes: Vec<usize>)
    ensures
        sizes@ == sizes_of(text@),
        sizes@.len() >= 1,
{
    let mut sizes: Vec<usize> = Vec::new();
    let ghost mut done: Seq<Seq<char>> = Seq::empty();
    let mut start: usize = 0;
    let mut i: usize = 0;
    proof {
        assert(text@.take(0) =~= Seq::<char>::empty());
        assert(done.push(text@.subrange(0, 0)) =~~= seq![Seq::<char>::empty()]);
    }
    while i < text.len()
        invariant
            start <= i <= text@.len(),
            fields(text@.take(i as int)) == done.push(text@.subrange(start as int, i as int)),
            sizes@.len() == done.len(),
            forall|k: int| 0 <= k < done.len() ==> #[trigger] sizes@[k] == size_of(done[k]),
        decreases text.len() - i,
    {
        proof {
            let seen = text@.take(i as int + 1);
            assert(seen.drop_last() =~= text@.take(i as int));
            assert(seen.last() == text@[i as int]);
        }
        if text[i] == ',' {
            let size: usize = field_size(text, start, i);
            sizes.push(size);
            proof {
                done = done.push(text@.subrange(start as int, i as int));
                assert(text@.subrange(i as int + 1, i as int + 1) =~= Seq::<char>::empty());
            }
            start = i + 1;
        } else {
            proof {
                let grown = text@.subrange(start as int, i as int).push(text@[i as int]);
                assert(grown =~= text@.subrange(start as int, i as int + 1));
                let before = done.push(text@.subrange(start as int, i as int));
                assert(before.update(before.len() - 1, grown) =~= done.push(grown));
            }
        }
        i += 1;
    }
    let size: usize = field_size(text, start, i);
    sizes.push(size);
    proof {
        assert(text@.take(i as int) =~= text@);
        let all = done.push(text@.subrange(start as int, i as int));
        assert(sizes@ =~= sizes_of(text@));
    }
    sizes
}

} // verus!
