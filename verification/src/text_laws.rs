//! What holds of numbers in decimal, of joined and trimmed text, and of the
//! order of texts.

use vstd::prelude::*;

verus! {

/// The number that the digits stand for.
pub open spec fn value_of(digits: Seq<char>) -> int
    decreases digits.len(),
{
    if digits.len() == 0 {
        0
    } else {
        10 * value_of(digits.drop_last()) + (digits.last() as int - '0' as int)
    }
}

/// A number in decimal consists of digits, reads as that number, and has no
/// zero in front but for the number zero itself.
pub proof fn law_decimal_reads_as_the_number(n: nat)
    ensures
        ({
            let digits = crate::text::decimal(n);
            &&& digits.len() > 0
            &&& forall|i: int| 0 <= i < digits.len() ==> '0' <= #[trigger] digits[i] <= '9'
            &&& value_of(digits) == n
            &&& digits[0] == '0' ==> n == 0
        }),
    decreases n,
{
    reveal_strlit("0123456789");
    let all = crate::text::DIGITS@;
    assert(all.len() == 10);
    assert(all[0] == '0' && all[1] == '1' && all[2] == '2' && all[3] == '3' && all[4] == '4'
        && all[5] == '5' && all[6] == '6' && all[7] == '7' && all[8] == '8' && all[9] == '9');
    assert forall|d: int| 0 <= d < 10 implies #[trigger] all[d] as int == '0' as int + d by {}
    let digits = crate::text::decimal(n);
    if n < 10 {
        assert(digits.drop_last() =~= Seq::empty());
        assert(value_of(Seq::empty()) == 0);
        assert(digits.last() == all[n as int]);
    } else {
        law_decimal_reads_as_the_number(n / 10);
        assert(digits.drop_last() =~= crate::text::decimal(n / 10));
        assert(digits.last() == all[(n % 10) as int]);
        assert(digits[0] == crate::text::decimal(n / 10)[0]);
    }
}

/// Texts are joined by the separator between each two, and by nothing else.
pub proof fn law_joined(first: Seq<Seq<char>>, second: Seq<Seq<char>>, separator: Seq<char>)
    ensures
        crate::text::joined(Seq::empty(), separator).len() == 0,
        first.len() == 1 ==> crate::text::joined(first, separator) == first[0],
        first.len() > 0 && second.len() > 0 ==> crate::text::joined(first + second, separator)
            == crate::text::joined(first, separator) + separator + crate::text::joined(
            second,
            separator,
        ),
    decreases second.len(),
{
    if first.len() > 0 && second.len() > 0 {
        let whole = first + second;
        assert(whole.drop_last() =~= first + second.drop_last());
        assert(whole.last() == second.last());
        if second.len() == 1 {
            assert(first + second.drop_last() =~= first);
        } else {
            law_joined(first, second.drop_last(), separator);
            let left = crate::text::joined(first, separator);
            let right = crate::text::joined(second.drop_last(), separator);
            assert(left + separator + right + separator + second.last() =~= left + separator + (
            right + separator + second.last()));
        }
    }
}

/// All of it is white space.
pub open spec fn all_white(text: Seq<char>) -> bool {
    forall|i: int| 0 <= i < text.len() ==> crate::text::white_space(#[trigger] text[i])
}

/// `whole` is `text` with white space in front and at the end.
pub open spec fn surrounded(
    whole: Seq<char>,
    before: Seq<char>,
    text: Seq<char>,
    after: Seq<char>,
) -> bool {
    &&& whole == before + text + after
    &&& all_white(before)
    &&& all_white(after)
}

/// Trimming takes away only white space, and all that stands at the end: a line
/// is what is left of it with white space around it.
pub proof fn law_trimming_takes_white_space(line: Seq<char>)
    ensures
        exists|before: Seq<char>, after: Seq<char>| #[trigger]
            surrounded(
                line,
                before,
                crate::text::trimmed_end(crate::text::trimmed_start(line)),
                after,
            ),
        exists|after: Seq<char>| #[trigger]
            surrounded(line, Seq::empty(), crate::text::trimmed_end(line), after),
        ({
            let text = crate::text::trimmed_end(line);
            text.len() > 0 ==> !crate::text::white_space(text.last())
        }),
        ({
            let text = crate::text::trimmed_end(crate::text::trimmed_start(line));
            text.len() > 0 ==> !crate::text::white_space(text[0]) && !crate::text::white_space(
                text.last(),
            )
        }),
{
    let before = lemma_trimmed_start(line);
    let rest = crate::text::trimmed_start(line);
    let after = lemma_trimmed_end(rest);
    let text = crate::text::trimmed_end(rest);
    assert(line =~= before + text + after);
    assert(surrounded(line, before, text, after));
    let end = lemma_trimmed_end(line);
    let kept = crate::text::trimmed_end(line);
    assert(line =~= Seq::<char>::empty() + kept + end);
    assert(surrounded(line, Seq::empty(), kept, end));
    if text.len() > 0 {
        assert(text[0] == rest[0]);
    }
}

proof fn lemma_trimmed_start(line: Seq<char>) -> (before: Seq<char>)
    ensures
        all_white(before),
        line == before + crate::text::trimmed_start(line),
        ({
            let rest = crate::text::trimmed_start(line);
            rest.len() > 0 ==> !crate::text::white_space(rest[0])
        }),
    decreases line.len(),
{
    if line.len() > 0 && crate::text::white_space(line[0]) {
        let before = lemma_trimmed_start(line.skip(1));
        let longer = seq![line[0]] + before;
        assert(line =~= longer + crate::text::trimmed_start(line)) by {
            assert(line =~= seq![line[0]] + line.skip(1));
        }
        longer
    } else {
        assert(line =~= Seq::<char>::empty() + line);
        Seq::empty()
    }
}

proof fn lemma_trimmed_end(line: Seq<char>) -> (after: Seq<char>)
    ensures
        all_white(after),
        line == crate::text::trimmed_end(line) + after,
        ({
            let rest = crate::text::trimmed_end(line);
            rest.len() > 0 ==> !crate::text::white_space(rest.last())
        }),
    decreases line.len(),
{
    if line.len() > 0 && crate::text::white_space(line.last()) {
        let after = lemma_trimmed_end(line.drop_last());
        let longer = after.push(line.last());
        assert(line =~= crate::text::trimmed_end(line) + longer) by {
            assert(line =~= line.drop_last().push(line.last()));
        }
        longer
    } else {
        assert(line =~= line + Seq::<char>::empty());
        Seq::empty()
    }
}

/// Texts are ordered by the first character in which they differ, and a text
/// comes before any longer one that starts with it.
pub proof fn law_order_of_texts(
    common: Seq<char>,
    x: char,
    left: Seq<char>,
    y: char,
    right: Seq<char>,
)
    ensures
        crate::order::not_after(common, common + right),
        !crate::order::not_after(common.push(x) + left, common),
        x < y ==> crate::order::not_after(common.push(x) + left, common.push(y) + right),
        x < y ==> !crate::order::not_after(common.push(y) + right, common.push(x) + left),
    decreases common.len(),
{
    let a = common.push(x) + left;
    let b = common.push(y) + right;
    if common.len() > 0 {
        let rest = common.skip(1);
        law_order_of_texts(rest, x, left, y, right);
        assert((common + right)[0] == common[0]);
        assert((common + right).skip(1) =~= rest + right);
        assert(a[0] == common[0] && b[0] == common[0]);
        assert(a.skip(1) =~= rest.push(x) + left);
        assert(b.skip(1) =~= rest.push(y) + right);
    } else {
        assert(a[0] == x && b[0] == y);
    }
}

/// Of texts in order, none comes after a later one.
pub proof fn law_texts_in_order(texts: Seq<Seq<char>>)
    ensures
        crate::order::ascending(texts) <==> forall|i: int, j: int|
            0 <= i < j < texts.len() ==> crate::order::not_after(
                #[trigger] texts[i],
                #[trigger] texts[j],
            ),
{
}

/// The texts of strings are their characters, one text for each string.
pub proof fn law_texts_of_strings(strings: Seq<String>, one: String)
    ensures
        crate::text::texts(strings).len() == strings.len(),
        forall|i: int|
            0 <= i < strings.len() ==> #[trigger] crate::text::texts(strings)[i] == strings[i]@,
        crate::text::optional_text(Some(one)) == Some(one@),
        crate::text::optional_text(None) is None,
{
}

} // verus!
