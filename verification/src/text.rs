//! Text as bytes: the separators and white space of the line formats,
//! splitting, trimming and searching.

use vstd::prelude::*;
use vstd::slice::slice_subrange;

verus! {

/// The field separator of a frame and of a log row.
pub const COMMA: u8 = 0x2c;

/// The field separator of a timestamp.
pub const COLON: u8 = 0x3a;

/// The line terminator of a log file.
pub const NEWLINE: u8 = 0x0a;

/// White space: the space, and the control characters from tab to
/// carriage return.
pub open spec fn is_space(b: u8) -> bool {
    b == 0x20 || (0x09 <= b && b <= 0x0d)
}

/// Executable form of [`is_space`].
pub fn is_space_byte(b: u8) -> (r: bool)
    ensures
        r == is_space(b),
{
    b == 0x20 || (0x09 <= b && b <= 0x0d)
}

/// The fields of `s`: the runs between occurrences of `sep`. There is
/// always one field more than there are separators, so that the empty text
/// has one empty field.
pub open spec fn split(s: Seq<u8>, sep: u8) -> Seq<Seq<u8>>
    decreases s.len(),
{
    if s.len() == 0 {
        seq![Seq::<u8>::empty()]
    } else {
        let before = split(s.drop_last(), sep);
        if s.last() == sep {
            before.push(Seq::<u8>::empty())
        } else {
            before.drop_last().push(before.last().push(s.last()))
        }
    }
}

/// `s` without its leading white space.
pub open spec fn trim_start(s: Seq<u8>) -> Seq<u8>
    decreases s.len(),
{
    if s.len() > 0 && is_space(s[0]) {
        trim_start(s.drop_first())
    } else {
        s
    }
}

/// `s` without its trailing white space.
pub open spec fn trim_end(s: Seq<u8>) -> Seq<u8>
    decreases s.len(),
{
    if s.len() > 0 && is_space(s.last()) {
        trim_end(s.drop_last())
    } else {
        s
    }
}

/// `s` without the white space at either end.
pub open spec fn trim(s: Seq<u8>) -> Seq<u8> {
    trim_end(trim_start(s))
}

/// Whether `pat` stands in `s` at index `i`.
pub open spec fn occurs_at(s: Seq<u8>, pat: Seq<u8>, i: int) -> bool {
    0 <= i && i + pat.len() <= s.len() && s.subrange(i, i + pat.len()) == pat
}

/// Whether `pat` stands somewhere in `s`.
pub open spec fn contains(s: Seq<u8>, pat: Seq<u8>) -> bool {
    exists|i: int| occurs_at(s, pat, i)
}

/// A split always yields at least one field.
pub proof fn lemma_split_nonempty(s: Seq<u8>, sep: u8)
    ensures
        split(s, sep).len() >= 1,
    decreases s.len(),
{
    if s.len() > 0 {
        lemma_split_nonempty(s.drop_last(), sep);
    }
}

/// Splits `text` at every `sep`.
pub fn split_fields<'a>(text: &'a [u8], sep: u8) -> (fields: Vec<&'a [u8]>)
    ensures
        fields@.len() == split(text@, sep).len(),
        forall|k: int| 0 <= k < fields@.len() ==> (#[trigger] fields@[k])@ == split(text@, sep)[k],
{
    let mut fields: Vec<&'a [u8]> = Vec::new();
    let mut start: usize = 0;
    let mut i: usize = 0;
    proof {
        assert(text@.take(0) =~= Seq::<u8>::empty());
        assert(text@.subrange(0, 0) =~= Seq::<u8>::empty());
    }
    while i < text.len()
        invariant
            start <= i <= text.len(),
            split(text@.take(i as int), sep).len() == fields@.len() + 1,
            forall|k: int|
                0 <= k < fields@.len() ==> (#[trigger] fields@[k])@ == split(
                    text@.take(i as int),
                    sep,
                )[k],
            split(text@.take(i as int), sep).last() == text@.subrange(start as int, i as int),
        decreases text.len() - i,
    {
        let ghost before = split(text@.take(i as int), sep);
        proof {
            assert(text@.take(i + 1).drop_last() =~= text@.take(i as int));
            assert(text@.take(i + 1).last() == text@[i as int]);
        }
        if text[i] == sep {
            let field = slice_subrange(text, start, i);
            fields.push(field);
            start = i + 1;
            proof {
                assert(text@.subrange(start as int, i + 1) =~= Seq::<u8>::empty());
            }
        } else {
            proof {
                assert(text@.subrange(start as int, i + 1) =~= text@.subrange(
                    start as int,
                    i as int,
                ).push(text@[i as int]));
            }
        }
        i += 1;
    }
    proof {
        assert(text@.take(text.len() as int) =~= text@);
    }
    let field = slice_subrange(text, start, text.len());
    fields.push(field);
    fields
}

/// The part of `text` between its leading and its trailing white space.
pub fn trim_bytes<'a>(text: &'a [u8]) -> (inner: &'a [u8])
    ensures
        inner@ == trim(text@),
{
    let n = text.len();
    let mut i: usize = 0;
    proof {
        assert(text@.skip(0) =~= text@);
    }
    while i < n && is_space_byte(text[i])
        invariant
            i <= n,
            n == text.len(),
            trim_start(text@) == trim_start(text@.skip(i as int)),
        decreases n - i,
    {
        proof {
            assert(text@.skip(i as int).drop_first() =~= text@.skip(i + 1));
        }
        i += 1;
    }
    assert(trim_start(text@) == text@.skip(i as int));
    let mut j: usize = n;
    proof {
        assert(text@.subrange(i as int, n as int) =~= text@.skip(i as int));
    }
    while j > i && is_space_byte(text[j - 1])
        invariant
            i <= j <= n,
            n == text.len(),
            trim(text@) == trim_end(text@.subrange(i as int, j as int)),
        decreases j,
    {
        proof {
            assert(text@.subrange(i as int, j as int).drop_last() =~= text@.subrange(
                i as int,
                j - 1,
            ));
        }
        j -= 1;
    }
    slice_subrange(text, i, j)
}

/// Writes `bytes` at the end of `out`.
pub fn push_bytes(out: &mut Vec<u8>, bytes: &[u8])
    ensures
        final(out)@ == old(out)@ + bytes@,
{
    let mut i: usize = 0;
    proof {
        assert(out@ =~= old(out)@ + bytes@.take(0));
    }
    while i < bytes.len()
        invariant
            i <= bytes.len(),
            out@ == old(out)@ + bytes@.take(i as int),
        decreases bytes.len() - i,
    {
        out.push(bytes[i]);
        proof {
            assert(out@ =~= old(out)@ + bytes@.take(i + 1));
        }
        i += 1;
    }
    proof {
        assert(bytes@.take(bytes.len() as int) =~= bytes@);
    }
}

/// Whether `pat` stands in `text` at index `at`.
fn matches_at(text: &[u8], pat: &[u8], at: usize) -> (r: bool)
    requires
        at + pat.len() <= text.len(),
    ensures
        r == occurs_at(text@, pat@, at as int),
{
    let mut k: usize = 0;
    while k < pat.len()
        invariant
            k <= pat.len(),
            at + pat.len() <= text.len(),
            forall|j: int| 0 <= j < k ==> text@[at + j] == pat@[j],
        decreases pat.len() - k,
    {
        if text[at + k] != pat[k] {
            proof {
                let window = text@.subrange(at as int, at + pat@.len());
                assert(window[k as int] == text@[at + k]);
            }
            return false;
        }
        k += 1;
    }
    proof {
        assert(text@.subrange(at as int, at + pat@.len()) =~= pat@);
    }
    true
}

/// Whether `pat` stands somewhere in `text`.
pub fn contains_bytes(text: &[u8], pat: &[u8]) -> (r: bool)
    ensures
        r == contains(text@, pat@),
{
    if pat.len() > text.len() {
        return false;
    }
    let last = text.len() - pat.len();
    let mut at: usize = 0;
    loop
        invariant
            at <= last,
            last == text.len() - pat.len(),
            forall|i: int| 0 <= i < at ==> !occurs_at(text@, pat@, i),
        decreases last - at,
    {
        if matches_at(text, pat, at) {
            return true;
        }
        if at == last {
            return false;
        }
        at += 1;
    }
}

/// Whether the byte `b` stands nowhere in `s`.
pub open spec fn free_of(s: Seq<u8>, b: u8) -> bool {
    forall|i: int| 0 <= i < s.len() ==> #[trigger] s[i] != b
}

/// Text without a separator is one field.
pub proof fn lemma_split_single(s: Seq<u8>, sep: u8)
    requires
        free_of(s, sep),
    ensures
        split(s, sep) == seq![s],
    decreases s.len(),
{
    if s.len() == 0 {
        assert(s =~= Seq::<u8>::empty());
    } else {
        lemma_split_single(s.drop_last(), sep);
        assert(s.drop_last().push(s.last()) =~= s);
        assert(split(s, sep) =~= seq![s]);
    }
}

/// A separator followed by text without a separator adds that text as one
/// more field.
pub proof fn lemma_split_joined(a: Seq<u8>, b: Seq<u8>, sep: u8)
    requires
        free_of(b, sep),
    ensures
        split(a + seq![sep] + b, sep) == split(a, sep).push(b),
    decreases b.len(),
{
    let s = a + seq![sep] + b;
    if b.len() == 0 {
        assert(s.drop_last() =~= a);
        assert(b =~= Seq::<u8>::empty());
    } else {
        let shorter = b.drop_last();
        lemma_split_joined(a, shorter, sep);
        assert(s.drop_last() =~= a + seq![sep] + shorter);
        assert(s.last() == b.last());
        assert(shorter.push(b.last()) =~= b);
        let before = split(a, sep).push(shorter);
        assert(before.drop_last() =~= split(a, sep));
    }
}

/// Text that neither starts nor ends with white space is its own trim.
pub proof fn lemma_trim_nothing(s: Seq<u8>)
    requires
        s.len() > 0 ==> !is_space(s[0]) && !is_space(s.last()),
    ensures
        trim(s) == s,
{
}

/// The fields put together again, with `sep` between each two.
pub open spec fn join(fields: Seq<Seq<u8>>, sep: u8) -> Seq<u8>
    decreases fields.len(),
{
    if fields.len() == 0 {
        Seq::<u8>::empty()
    } else if fields.len() == 1 {
        fields[0]
    } else {
        join(fields.drop_last(), sep) + seq![sep] + fields.last()
    }
}

/// Splitting loses nothing and adds nothing: no field holds the separator,
/// and the fields joined by the separator are the text again.
pub proof fn lemma_split_is_inverse_of_join(s: Seq<u8>, sep: u8)
    ensures
        split(s, sep).len() >= 1,
        forall|k: int| 0 <= k < split(s, sep).len() ==> free_of(#[trigger] split(s, sep)[k], sep),
        join(split(s, sep), sep) == s,
    decreases s.len(),
{
    let fields = split(s, sep);
    if s.len() == 0 {
        assert(join(fields, sep) =~= s);
    } else {
        let before = split(s.drop_last(), sep);
        lemma_split_is_inverse_of_join(s.drop_last(), sep);
        if s.last() == sep {
            assert(fields.drop_last() =~= before);
            assert(join(fields, sep) =~= s.drop_last() + seq![sep]);
            assert(s.drop_last() + seq![sep] =~= s);
            assert forall|k: int| 0 <= k < fields.len() implies free_of(#[trigger] fields[k], sep) by {
                if k < before.len() {
                    assert(fields[k] == before[k]);
                }
            }
        } else {
            let grown = before.last().push(s.last());
            assert(fields.last() == grown);
            assert forall|k: int| 0 <= k < fields.len() implies free_of(#[trigger] fields[k], sep) by {
                if k < before.len() - 1 {
                    assert(fields[k] == before[k]);
                } else {
                    assert(free_of(before[before.len() - 1], sep));
                }
            }
            if before.len() == 1 {
                assert(join(before, sep) == before[0]);
                assert(join(fields, sep) =~= s.drop_last().push(s.last()));
            } else {
                assert(fields.drop_last() =~= before.drop_last());
                assert(join(fields, sep) =~= join(before, sep).push(s.last()));
            }
            assert(s.drop_last().push(s.last()) =~= s);
        }
    }
}

/// What `trim` leaves neither starts nor ends with white space, and it is
/// the text between a run of white space at the start and one at the end.
pub proof fn lemma_trim_is_the_inner_part(s: Seq<u8>)
    ensures
        trim(s).len() > 0 ==> !is_space(trim(s)[0]) && !is_space(trim(s).last()),
        exists|i: int, j: int|
            {
                &&& 0 <= i <= j <= s.len()
                &&& #[trigger] s.subrange(i, j) == trim(s)
                &&& forall|k: int| 0 <= k < i ==> is_space(s[k])
                &&& forall|k: int| j <= k < s.len() ==> is_space(s[k])
            },
{
    lemma_trim_start(s);
    let i = choose|i: int|
        0 <= i <= s.len() && trim_start(s) == #[trigger] s.skip(i) && (forall|k: int|
            0 <= k < i ==> is_space(s[k]));
    let inner = s.skip(i);
    lemma_trim_end(inner);
    let n = choose|n: int|
        0 <= n <= inner.len() && trim_end(inner) == #[trigger] inner.take(n) && (forall|k: int|
            n <= k < inner.len() ==> is_space(inner[k]));
    let j = i + n;
    assert(s.subrange(i, j) =~= inner.take(n));
    assert forall|k: int| j <= k < s.len() implies is_space(s[k]) by {
        assert(s[k] == inner[k - i]);
    }
    if trim(s).len() > 0 {
        assert(trim(s)[0] == inner[0]);
    }
}

/// What `trim_start` leaves is the text from some index on, with white
/// space alone before it and none at its start.
proof fn lemma_trim_start(s: Seq<u8>)
    ensures
        exists|i: int|
            0 <= i <= s.len() && trim_start(s) == #[trigger] s.skip(i) && (forall|k: int|
                0 <= k < i ==> is_space(s[k])),
        trim_start(s).len() > 0 ==> !is_space(trim_start(s)[0]),
    decreases s.len(),
{
    if s.len() > 0 && is_space(s[0]) {
        let rest = s.drop_first();
        lemma_trim_start(rest);
        let i = choose|i: int|
            0 <= i <= rest.len() && trim_start(rest) == #[trigger] rest.skip(i) && (forall|k: int|
                0 <= k < i ==> is_space(rest[k]));
        assert(rest.skip(i) =~= s.skip(i + 1));
        assert forall|k: int| 0 <= k < i + 1 implies is_space(s[k]) by {
            if k > 0 {
                assert(s[k] == rest[k - 1]);
            }
        }
    } else {
        assert(s.skip(0) =~= s);
    }
}

/// What `trim_end` leaves is the text up to some index, with white space
/// alone behind it and none at its end; what it started with stays.
proof fn lemma_trim_end(s: Seq<u8>)
    ensures
        exists|n: int|
            0 <= n <= s.len() && trim_end(s) == #[trigger] s.take(n) && (forall|k: int|
                n <= k < s.len() ==> is_space(s[k])),
        trim_end(s).len() > 0 ==> !is_space(trim_end(s).last()) && trim_end(s)[0] == s[0],
    decreases s.len(),
{
    if s.len() > 0 && is_space(s.last()) {
        let rest = s.drop_last();
        lemma_trim_end(rest);
        let n = choose|n: int|
            0 <= n <= rest.len() && trim_end(rest) == #[trigger] rest.take(n) && (forall|k: int|
                n <= k < rest.len() ==> is_space(rest[k]));
        assert(rest.take(n) =~= s.take(n));
        assert forall|k: int| n <= k < s.len() implies is_space(s[k]) by {
            if k < rest.len() {
                assert(s[k] == rest[k]);
            }
        }
    } else {
        assert(s.take(s.len() as int) =~= s);
    }
}

} // verus!
