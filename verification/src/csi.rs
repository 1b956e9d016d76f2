//! Parameters of a CSI control sequence: the text between `ESC [` and the
//! final character, such as `12;40` or `?25`.
use vstd::prelude::*;

verus! {

/// `s` without its leading `?` marks (private-mode markers).
pub open spec fn without_marks(s: Seq<char>) -> Seq<char>
    decreases s.len(),
{
    if s.len() > 0 && s[0] == '?' {
        without_marks(s.drop_first())
    } else {
        s
    }
}

/// The fields of `s` separated by `;`: one field more than there are
/// separators, empty fields included.
pub open spec fn fields(s: Seq<char>) -> Seq<Seq<char>>
    decreases s.len(),
{
    if s.len() == 0 {
        seq![Seq::<char>::empty()]
    } else {
        let f = fields(s.drop_last());
        if s.last() == ';' {
            f.push(Seq::<char>::empty())
        } else {
            f.update(f.len() - 1, f.last().push(s.last()))
        }
    }
}

pub open spec fn is_digit(c: char) -> bool {
    '0' <= c <= '9'
}

/// The value of a string of decimal digits.
pub open spec fn digits_value(d: Seq<char>) -> int
    decreases d.len(),
{
    if d.len() == 0 {
        0
    } else {
        digits_value(d.drop_last()) * 10 + (d.last() as int - '0' as int)
    }
}

pub open spec fn all_digits(d: Seq<char>) -> bool {
    forall|i: int| 0 <= i < d.len() ==> is_digit(#[trigger] d[i])
}

/// `s` without one leading `+` sign.
pub open spec fn unsigned_part(s: Seq<char>) -> Seq<char> {
    if s.len() > 0 && s[0] == '+' { s.drop_first() } else { s }
}

/// A decimal number as `u32` text: an optional `+` and at least one digit,
/// of a value that fits; `None` for anything else.
pub open spec fn parsed_u32(s: Seq<char>) -> Option<u32> {
    let d = unsigned_part(s);
    if d.len() > 0 && all_digits(d) && digits_value(d) <= u32::MAX {
        Some(digits_value(d) as u32)
    } else {
        None
    }
}

/// The numeric parameters of a CSI sequence's text: one per field, in
/// order, `None` for a field that is empty or not a number (the command then
/// uses its default there).
pub open spec fn csi_params(s: Seq<char>) -> Seq<Option<u32>> {
    fields(without_marks(s)).map_values(|f: Seq<char>| parsed_u32(f))
}

/// There is always at least one field.
pub proof fn lemma_fields_nonempty(s: Seq<char>)
    ensures
        fields(s).len() >= 1,
    decreases s.len(),
{
    if s.len() > 0 {
        lemma_fields_nonempty(s.drop_last());
    }
}

/// Text without `;` is one field.
pub proof fn lemma_fields_plain(s: Seq<char>)
    requires
        forall|i: int| 0 <= i < s.len() ==> #[trigger] s[i] != ';',
    ensures
        fields(s) == seq![s],
    decreases s.len(),
{
    if s.len() > 0 {
        let t = s.drop_last();
        assert forall|i: int| 0 <= i < t.len() implies #[trigger] t[i] != ';' by {
            assert(t[i] == s[i]);
        }
        lemma_fields_plain(t);
        assert(s[s.len() - 1] != ';');
        assert(t.push(s.last()) =~= s);
        assert(fields(s) =~= seq![s]);
    } else {
        assert(s =~= Seq::<char>::empty());
        assert(fields(s) =~= seq![s]);
    }
}

/// A `;` separates fields: the fields of `a ; b` are the fields of `a`
/// followed by the fields of `b`.
pub proof fn lemma_fields_split(a: Seq<char>, b: Seq<char>)
    ensures
        fields(a + seq![';'] + b) == fields(a) + fields(b),
    decreases b.len(),
{
    let ab = a + seq![';'] + b;
    lemma_fields_nonempty(a);
    if b.len() == 0 {
        assert(ab =~= (a + seq![';']));
        assert((a + seq![';']).drop_last() =~= a);
        assert(fields(a) + fields(b) =~= fields(a).push(Seq::<char>::empty()));
    } else {
        let b1 = b.drop_last();
        lemma_fields_split(a, b1);
        lemma_fields_nonempty(b1);
        assert(ab.drop_last() =~= a + seq![';'] + b1);
        assert(ab.last() == b.last());
        let fa = fields(a);
        let fb = fields(b1);
        if b.last() == ';' {
            assert((fa + fb).push(Seq::<char>::empty()) =~= fa + fb.push(Seq::<char>::empty()));
        } else {
            let f = fa + fb;
            assert(f.update(f.len() - 1, f.last().push(b.last())) =~= fa + fb.update(
                fb.len() - 1,
                fb.last().push(b.last()),
            ));
        }
    }
}

/// A decimal digit reads as its value, with or without a `+` sign.
pub proof fn lemma_parse_digit(c: char)
    requires
        is_digit(c),
    ensures
        parsed_u32(seq![c]) == Some((c as int - '0' as int) as u32),
        parsed_u32(seq!['+', c]) == Some((c as int - '0' as int) as u32),
{
    let d = seq![c];
    assert(d.drop_last() =~= Seq::<char>::empty());
    assert(d.last() == c);
    assert(digits_value(Seq::<char>::empty()) == 0);
    assert(digits_value(d) == c as int - '0' as int);
    assert(all_digits(d));
    assert(unsigned_part(d) == d);
    assert(seq!['+', c].drop_first() =~= d);
    assert(unsigned_part(seq!['+', c]) == d);
}

/// A string of digits has a value of at least zero.
pub proof fn lemma_digits_value_nonneg(d: Seq<char>)
    requires
        all_digits(d),
    ensures
        digits_value(d) >= 0,
    decreases d.len(),
{
    if d.len() > 0 {
        let t = d.drop_last();
        assert forall|i: int| 0 <= i < t.len() implies is_digit(#[trigger] t[i]) by {
            assert(t[i] == d[i]);
        }
        lemma_digits_value_nonneg(t);
        assert(is_digit(d[d.len() - 1]));
    }
}

/// Appending a digit to a number's text multiplies the number by ten and
/// adds the digit, as long as the result fits; otherwise the text is not a
/// `u32`.
pub proof fn lemma_parse_append_digit(d: Seq<char>, c: char, v: u32)
    requires
        d.len() > 0,
        d[0] != '+',
        parsed_u32(d) == Some(v),
        is_digit(c),
    ensures
        v * 10 + (c as int - '0' as int) <= u32::MAX ==> parsed_u32(d.push(c)) == Some(
            (v * 10 + (c as int - '0' as int)) as u32,
        ),
        v * 10 + (c as int - '0' as int) > u32::MAX ==> parsed_u32(d.push(c)) is None,
{
    let e = d.push(c);
    assert(e.drop_last() =~= d);
    assert(e.last() == c);
    assert(unsigned_part(d) == d);
    assert(e[0] == d[0]);
    assert(unsigned_part(e) == e);
    assert(all_digits(d));
    lemma_digits_value_nonneg(d);
    assert(v == digits_value(d));
    assert(digits_value(e) == digits_value(d) * 10 + (c as int - '0' as int));
    assert forall|i: int| 0 <= i < e.len() implies is_digit(#[trigger] e[i]) by {
        if i < d.len() {
            assert(e[i] == d[i]);
        }
    }
    assert(all_digits(e));
}

/// A character that is neither a digit nor a leading `+` makes the text no
/// `u32`; so do an empty text and a lone `+`.
pub proof fn lemma_parse_rejects(s: Seq<char>, i: int)
    requires
        0 <= i < s.len(),
        !is_digit(s[i]),
        !(i == 0 && s[i] == '+'),
    ensures
        parsed_u32(s) is None,
        parsed_u32(Seq::<char>::empty()) is None,
        parsed_u32(seq!['+']) is None,
{
    let d = unsigned_part(s);
    if s.len() > 0 && s[0] == '+' {
        assert(d[i - 1] == s[i]);
    } else {
        assert(d[i] == s[i]);
    }
    assert(seq!['+'].drop_first().len() == 0);
}

/// Leading `?` marks are dropped and nothing else: what remains is a suffix
/// of the text that does not start with `?`, and everything before it is `?`.
pub proof fn lemma_without_marks(s: Seq<char>)
    ensures
        without_marks(s).len() <= s.len(),
        s.skip(s.len() - without_marks(s).len()) == without_marks(s),
        forall|i: int| 0 <= i < s.len() - without_marks(s).len() ==> #[trigger] s[i] == '?',
        without_marks(s).len() == 0 || without_marks(s)[0] != '?',
    decreases s.len(),
{
    if s.len() > 0 && s[0] == '?' {
        let t = s.drop_first();
        lemma_without_marks(t);
        assert(s.skip(s.len() - without_marks(s).len()) =~= t.skip(t.len() - without_marks(t).len()));
        assert forall|i: int| 0 <= i < s.len() - without_marks(s).len() implies #[trigger] s[i] == '?' by {
            if i > 0 {
                assert(s[i] == t[i - 1]);
            }
        }
    } else {
        assert(s.skip(0) =~= s);
    }
}

/// The number that `text[start..end]` spells (see `parsed_u32`).
pub fn parse_u32(text: &Vec<char>, start: usize, end: usize) -> (r: Option<u32>)
    requires
        start <= end <= text@.len(),
    ensures
        r == parsed_u32(text@.subrange(start as int, end as int)),
{
    let ghost s = text@.subrange(start as int, end as int);
    let mut i = start;
    if start < end && text[start] == '+' {
        i = start + 1;
    }
    let ghost d = text@.subrange(i as int, end as int);
    assert(d == unsigned_part(s));
    if i == end {
        assert(d.len() == 0);
        return None;
    }
    let first = i;
    let mut value: u64 = 0;
    let mut big = false;
    while i < end
        invariant
            start <= first <= i <= end <= text@.len(),
            d == text@.subrange(first as int, end as int),
            s == text@.subrange(start as int, end as int),
            d == unsigned_part(s),
            forall|k: int| 0 <= k < i - first ==> is_digit(#[trigger] d[k]),
            !big ==> value == digits_value(d.take(i - first)) && value <= u32::MAX,
            big ==> digits_value(d.take(i - first)) > u32::MAX,
            digits_value(d.take(i - first)) >= 0,
        decreases end - i,
    {
        let c = text[i];
        if !('0' <= c && c <= '9') {
            assert(d[i - first] == c);
            assert(!is_digit(d[i - first]));
            assert(parsed_u32(s) is None);
            return None;
        }
        let ghost k = i - first;
        assert(d.take(k + 1).drop_last() =~= d.take(k));
        assert(d.take(k + 1).last() == c);
        if !big {
            value = value * 10 + (c as u64 - '0' as u64);
            if value > 4294967295 {
                big = true;
            }
        }
        i = i + 1;
    }
    assert(d.take(i - first) =~= d);
    if big {
        None
    } else {
        Some(value as u32)
    }
}

/// Index of the first character of `text` that is not a leading `?`.
fn marks_end(text: &Vec<char>) -> (k: usize)
    ensures
        k <= text@.len(),
        text@.skip(k as int) == without_marks(text@),
{
    let mut k: usize = 0;
    assert(text@.skip(0) =~= text@);
    while k < text.len() && text[k] == '?'
        invariant
            k <= text@.len(),
            without_marks(text@.skip(k as int)) == without_marks(text@),
        decreases text@.len() - k,
    {
        assert(text@.skip(k as int).drop_first() =~= text@.skip(k + 1));
        k = k + 1;
    }
    k
}

/// The numeric parameters of a CSI sequence's text (see `csi_params`): leading
/// `?` marks dropped, the rest split at `;`, and each field read as a `u32`,
/// or `None` where it is empty or not a number.
pub fn parse_params(text: &Vec<char>) -> (p: Vec<Option<u32>>)
    ensures
        p@ == csi_params(text@),
{
    let start = marks_end(text);
    let ghost t = text@.skip(start as int);
    let mut p: Vec<Option<u32>> = Vec::new();
    let mut field_start = start;
    let mut i = start;
    let ghost mut done: Seq<Seq<char>> = Seq::empty();
    assert(t.take(0) =~= Seq::<char>::empty());
    assert(text@.subrange(start as int, start as int) =~= Seq::<char>::empty());
    assert(fields(t.take(0)) =~= done.push(text@.subrange(start as int, start as int)));
    while i < text.len()
        invariant
            start <= field_start <= i <= text@.len(),
            t == text@.skip(start as int),
            fields(t.take(i - start)) == done.push(text@.subrange(field_start as int, i as int)),
            p@ == done.map_values(|f: Seq<char>| parsed_u32(f)),
        decreases text@.len() - i,
    {
        let ghost k = i - start;
        assert(t.take(k + 1).drop_last() =~= t.take(k));
        assert(t.take(k + 1).last() == text@[i as int]);
        if text[i] == ';' {
            let v = parse_u32(text, field_start, i);
            proof {
                let f = text@.subrange(field_start as int, i as int);
                assert(done.push(f).drop_last() =~= done);
                assert(text@.subrange(i + 1, i + 1) =~= Seq::<char>::empty());
                done = done.push(f);
            }
            p.push(v);
            field_start = i + 1;
        } else {
            proof {
                let f = text@.subrange(field_start as int, i as int);
                assert(f.push(text@[i as int]) =~= text@.subrange(field_start as int, i + 1));
                assert(done.push(f).update(done.len() as int, f.push(text@[i as int])) =~= done.push(
                    text@.subrange(field_start as int, i + 1),
                ));
            }
        }
        i = i + 1;
    }
    assert(t.take(i - start) =~= t);
    let last = parse_u32(text, field_start, i);
    let ghost f = text@.subrange(field_start as int, i as int);
    assert(done.push(f).drop_last() =~= done);
    p.push(last);
    assert(p@ =~= done.push(f).map_values(|f: Seq<char>| parsed_u32(f)));
    p
}

} // verus!
