//! Text as sequences of characters: splitting, trimming, searching and replacing.

use vstd::prelude::*;
use vstd::string::*;

verus! {

/// `String::push` of the standard library appends one character at the end.
pub assume_specification[ std::string::String::push ](s: &mut String, c: char)
    ensures
        final(s)@ == old(s)@.push(c),
;

/// `char::is_whitespace` of the standard library tells whether a character has the Unicode
/// property `White_Space`. The characters that have it are listed in [`is_white_space`].
pub assume_specification[ char::is_whitespace ](c: char) -> (res: bool)
    ensures
        res == is_white_space(c),
;

/// The characters with the Unicode property `White_Space`.
pub open spec fn is_white_space(c: char) -> bool {
    ||| '\u{0009}' <= c <= '\u{000D}'
    ||| c == '\u{0020}'
    ||| c == '\u{0085}'
    ||| c == '\u{00A0}'
    ||| c == '\u{1680}'
    ||| '\u{2000}' <= c <= '\u{200A}'
    ||| c == '\u{2028}'
    ||| c == '\u{2029}'
    ||| c == '\u{202F}'
    ||| c == '\u{205F}'
    ||| c == '\u{3000}'
}

/// The texts that a sequence of strings holds.
pub open spec fn texts(strings: Seq<String>) -> Seq<Seq<char>> {
    strings.map_values(|s: String| s@)
}

/// The character `c`, so many times.
pub open spec fn repeated(c: char, n: nat) -> Seq<char> {
    Seq::new(n, |i: int| c)
}

/// The characters of `s`, in order.
pub fn chars_of(s: &str) -> (res: Vec<char>)
    ensures
        res@ == s@,
{
    let mut res: Vec<char> = Vec::new();
    for c in iter: s.chars()
        invariant
            iter.seq() == s@,
            res@ == iter.seq().take(iter.index() as int),
    {
        res.push(c);
    }
    res
}

/// The text made of the characters of `chars` from `from` up to, not including, `to`.
pub fn text_of(chars: &Vec<char>, from: usize, to: usize) -> (res: String)
    requires
        from <= to <= chars@.len(),
    ensures
        res@ == chars@.subrange(from as int, to as int),
{
    let mut res = String::new();
    let mut i: usize = from;
    while i < to
        invariant
            from <= i <= to <= chars@.len(),
            res@ == chars@.subrange(from as int, i as int),
        decreases to - i,
    {
        res.push(chars[i]);
        i += 1;
    }
    res
}

/// Copies of the strings in `strings`, in order.
pub fn copies(strings: &[String]) -> (res: Vec<String>)
    ensures
        texts(res@) == texts(strings@),
{
    let mut res: Vec<String> = Vec::new();
    let mut i: usize = 0;
    while i < strings.len()
        invariant
            i <= strings@.len(),
            texts(res@) == texts(strings@).take(i as int),
        decreases strings@.len() - i,
    {
        let ghost before = res@;
        res.push(strings[i].clone());
        proof {
            assert(texts(res@) =~= texts(before).push(strings@[i as int]@));
            assert(texts(strings@).take(i + 1) =~= texts(strings@).take(i as int).push(
                strings@[i as int]@,
            ));
        }
        i += 1;
    }
    proof {
        assert(texts(strings@).take(i as int) =~= texts(strings@));
    }
    res
}

/// Whether `pattern` occurs in `chars` at `at`.
pub fn occurs_at(chars: &Vec<char>, at: usize, pattern: &Vec<char>) -> (res: bool)
    requires
        at <= chars@.len(),
    ensures
        res == occurrence(chars@, at as int, pattern@),
{
    if chars.len() - at < pattern.len() {
        return false;
    }
    let mut i: usize = 0;
    while i < pattern.len()
        invariant
            i <= pattern@.len(),
            at + pattern@.len() <= chars.len(),
            forall|j: int| 0 <= j < i ==> chars@[at + j] == #[trigger] pattern@[j],
        decreases pattern@.len() - i,
    {
        if chars[at + i] != pattern[i] {
            proof {
                assert(chars@.subrange(at as int, at + pattern@.len())[i as int] != pattern@[i as int]);
            }
            return false;
        }
        i += 1;
    }
    proof {
        assert(chars@.subrange(at as int, at + pattern@.len()) =~= pattern@);
    }
    true
}

/// Whether `s` starts with `prefix`.
pub fn starts_with(s: &str, prefix: &str) -> (res: bool)
    ensures
        res == prefix@.is_prefix_of(s@),
{
    occurs_at(&chars_of(s), 0, &chars_of(prefix))
}

/// Whether `chars` ends with `suffix`.
pub fn ends_with(chars: &Vec<char>, suffix: &str) -> (res: bool)
    ensures
        res == suffix@.is_suffix_of(chars@),
{
    let end = chars_of(suffix);
    if chars.len() < end.len() {
        return false;
    }
    let at = chars.len() - end.len();
    let found = occurs_at(chars, at, &end);
    proof {
        assert(at + end@.len() == chars@.len());
    }
    found
}

/// What follows `prefix` in `s`, if `s` starts with it.
pub fn strip_prefix(s: &str, prefix: &str) -> (res: Option<String>)
    ensures
        (match res {
            Some(rest) => prefix@.is_prefix_of(s@) && rest@ == s@.skip(prefix@.len() as int),
            None => !prefix@.is_prefix_of(s@),
        }),
{
    let chars = chars_of(s);
    let start = chars_of(prefix);
    if occurs_at(&chars, 0, &start) {
        let rest = text_of(&chars, start.len(), chars.len());
        proof {
            assert(rest@ =~= s@.skip(prefix@.len() as int));
        }
        Some(rest)
    } else {
        None
    }
}

/// `pattern` stands in `text` from position `at` on.
pub open spec fn occurrence(text: Seq<char>, at: int, pattern: Seq<char>) -> bool {
    &&& 0 <= at
    &&& at + pattern.len() <= text.len()
    &&& text.subrange(at, at + pattern.len()) == pattern
}

/// `pattern` stands somewhere in `text`.
pub open spec fn occurs(text: Seq<char>, pattern: Seq<char>) -> bool {
    exists|at: int| occurrence(text, at, pattern)
}

/// Whether `pattern` stands somewhere in `chars`.
pub fn contains(chars: &Vec<char>, pattern: &Vec<char>) -> (res: bool)
    ensures
        res == occurs(chars@, pattern@),
{
    let mut at: usize = 0;
    while at < chars.len()
        invariant
            at <= chars@.len(),
            forall|k: int| 0 <= k < at ==> !occurrence(chars@, k, pattern@),
        decreases chars@.len() - at,
    {
        if occurs_at(chars, at, pattern) {
            return true;
        }
        at += 1;
    }
    let found = occurs_at(chars, at, pattern);
    proof {
        assert(forall|k: int| occurrence(chars@, k, pattern@) ==> k <= chars@.len());
    }
    found
}

/// `text` with every occurrence of `pattern` replaced by `with`, found from the left and without
/// overlap.
pub open spec fn replaced(text: Seq<char>, pattern: Seq<char>, with: Seq<char>) -> Seq<char>
    decreases text.len(),
{
    if pattern.len() == 0 || text.len() == 0 {
        text
    } else if pattern.is_prefix_of(text) {
        with + replaced(text.skip(pattern.len() as int), pattern, with)
    } else {
        seq![text[0]] + replaced(text.skip(1), pattern, with)
    }
}

/// Appends all of `chars` to `out`.
fn push_all(out: &mut Vec<char>, chars: &Vec<char>)
    ensures
        final(out)@ == old(out)@ + chars@,
{
    let mut i: usize = 0;
    while i < chars.len()
        invariant
            i <= chars@.len(),
            out@ == old(out)@ + chars@.take(i as int),
        decreases chars@.len() - i,
    {
        out.push(chars[i]);
        i += 1;
        proof {
            assert(chars@.take(i as int) =~= chars@.take(i - 1).push(chars@[i - 1]));
        }
    }
    proof {
        assert(chars@.take(i as int) =~= chars@);
    }
}

/// The characters of `chars` with every occurrence of `pattern` replaced by `with`.
pub fn replace(chars: &Vec<char>, pattern: &Vec<char>, with: &Vec<char>) -> (res: Vec<char>)
    requires
        pattern@.len() > 0,
    ensures
        res@ == replaced(chars@, pattern@, with@),
{
    let mut res: Vec<char> = Vec::new();
    let mut i: usize = 0;
    proof {
        assert(chars@.skip(0) =~= chars@);
    }
    while i < chars.len()
        invariant
            i <= chars@.len(),
            pattern@.len() > 0,
            res@ + replaced(chars@.skip(i as int), pattern@, with@) == replaced(
                chars@,
                pattern@,
                with@,
            ),
        decreases chars@.len() - i,
    {
        let ghost before = res@;
        let ghost rest = chars@.skip(i as int);
        if occurs_at(chars, i, pattern) {
            push_all(&mut res, with);
            proof {
                assert(rest.subrange(0, pattern@.len() as int) =~= pattern@);
                assert(rest.skip(pattern@.len() as int) =~= chars@.skip(i + pattern@.len()));
                assert(before + (with@ + replaced(chars@.skip(i + pattern@.len()), pattern@, with@))
                    =~= res@ + replaced(chars@.skip(i + pattern@.len()), pattern@, with@));
            }
            i += pattern.len();
        } else {
            res.push(chars[i]);
            proof {
                if pattern@.is_prefix_of(rest) {
                    assert(chars@.subrange(i as int, i + pattern@.len()) =~= rest.subrange(
                        0,
                        pattern@.len() as int,
                    ));
                }
                assert(rest.skip(1) =~= chars@.skip(i + 1));
                assert(before + (seq![rest[0]] + replaced(chars@.skip(i + 1), pattern@, with@))
                    =~= res@ + replaced(chars@.skip(i + 1), pattern@, with@));
            }
            i += 1;
        }
    }
    proof {
        assert(replaced(chars@.skip(i as int), pattern@, with@) =~= Seq::<char>::empty());
    }
    res
}

/// The parts of `text` between the occurrences of `separator`. There is always at least one.
pub open spec fn fields(text: Seq<char>, separator: char) -> Seq<Seq<char>>
    decreases text.len(),
{
    if text.len() == 0 {
        seq![Seq::<char>::empty()]
    } else {
        let before = fields(text.drop_last(), separator);
        if text.last() == separator {
            before.push(Seq::<char>::empty())
        } else {
            before.drop_last().push(before.last().push(text.last()))
        }
    }
}

/// Splits the characters of `chars` from `from` on at every `separator`.
pub fn split(chars: &Vec<char>, from: usize, separator: char) -> (res: Vec<String>)
    requires
        from <= chars@.len(),
    ensures
        texts(res@) == fields(chars@.skip(from as int), separator),
{
    let ghost text = chars@.skip(from as int);
    let mut res: Vec<String> = Vec::new();
    let mut start: usize = from;
    let mut i: usize = from;
    proof {
        assert(chars@.subrange(from as int, from as int) =~= Seq::<char>::empty());
        assert(texts(res@).push(Seq::<char>::empty()) =~= seq![Seq::<char>::empty()]);
    }
    while i < chars.len()
        invariant
            from <= start <= i <= chars@.len(),
            text == chars@.skip(from as int),
            texts(res@).push(chars@.subrange(start as int, i as int)) == fields(
                text.take(i - from),
                separator,
            ),
        decreases chars@.len() - i,
    {
        proof {
            assert(text.take(i + 1 - from).drop_last() =~= text.take(i - from));
            assert(text.take(i + 1 - from).last() == chars@[i as int]);
            assert(texts(res@).push(chars@.subrange(start as int, i as int)).drop_last() =~= texts(res@));
        }
        if chars[i] == separator {
            let ghost before = res@;
            let field = text_of(chars, start, i);
            res.push(field);
            start = i + 1;
            proof {
                assert(texts(res@) =~= texts(before).push(field@));
                assert(chars@.subrange(start as int, i + 1) =~= Seq::<char>::empty());
            }
        } else {
            proof {
                assert(chars@.subrange(start as int, i + 1) =~= chars@.subrange(
                    start as int,
                    i as int,
                ).push(chars@[i as int]));
            }
        }
        i += 1;
    }
    let ghost before = res@;
    let field = text_of(chars, start, i);
    res.push(field);
    proof {
        assert(texts(res@) =~= texts(before).push(field@));
        assert(text.take(i - from) =~= text);
    }
    res
}

/// The texts in `parts`, one after the other, with `separator` between them.
pub open spec fn joined(parts: Seq<Seq<char>>, separator: Seq<char>) -> Seq<char>
    decreases parts.len(),
{
    if parts.len() == 0 {
        Seq::empty()
    } else if parts.len() == 1 {
        parts[0]
    } else {
        joined(parts.drop_last(), separator) + separator + parts.last()
    }
}

/// Joins `parts` with `separator` between them.
pub fn join(parts: &Vec<String>, separator: &str) -> (res: String)
    ensures
        res@ == joined(texts(parts@), separator@),
{
    let ghost all = texts(parts@);
    let mut res = String::new();
    let mut i: usize = 0;
    while i < parts.len()
        invariant
            i <= parts@.len(),
            all == texts(parts@),
            res@ == joined(all.take(i as int), separator@),
        decreases parts@.len() - i,
    {
        if i > 0 {
            res.append(separator);
        }
        res.append(parts[i].as_str());
        proof {
            assert(all.take(i + 1).drop_last() =~= all.take(i as int));
            assert(all.take(i + 1).last() == parts@[i as int]@);
            assert(res@ =~= joined(all.take(i + 1), separator@));
        }
        i += 1;
    }
    proof {
        assert(all.take(i as int) =~= all);
    }
    res
}

/// `text` without the characters at its end that satisfy `drop`.
pub open spec fn trimmed_end(text: Seq<char>, drop: spec_fn(char) -> bool) -> Seq<char>
    decreases text.len(),
{
    if text.len() > 0 && drop(text.last()) {
        trimmed_end(text.drop_last(), drop)
    } else {
        text
    }
}

/// `text` without the characters at its start that satisfy `drop`.
pub open spec fn trimmed_start(text: Seq<char>, drop: spec_fn(char) -> bool) -> Seq<char>
    decreases text.len(),
{
    if text.len() > 0 && drop(text[0]) {
        trimmed_start(text.skip(1), drop)
    } else {
        text
    }
}

/// `text` without the white space around it.
pub open spec fn trimmed(text: Seq<char>) -> Seq<char> {
    trimmed_end(trimmed_start(text, |c: char| is_white_space(c)), |c: char| is_white_space(c))
}

/// The characters of `s` without the white space around them.
pub fn trim(s: &str) -> (res: Vec<char>)
    ensures
        res@ == trimmed(s@),
{
    let chars = chars_of(s);
    let ghost white = |c: char| is_white_space(c);
    let mut from: usize = 0;
    proof {
        assert(chars@.skip(0) =~= chars@);
    }
    while from < chars.len() && chars[from].is_whitespace()
        invariant
            from <= chars@.len(),
            white == |c: char| is_white_space(c),
            trimmed_start(chars@.skip(from as int), white) == trimmed_start(chars@, white),
        decreases chars@.len() - from,
    {
        proof {
            assert(chars@.skip(from as int).skip(1) =~= chars@.skip(from + 1));
        }
        from += 1;
    }
    let mut to: usize = chars.len();
    proof {
        assert(chars@.subrange(from as int, to as int) =~= chars@.skip(from as int));
    }
    while to > from && chars[to - 1].is_whitespace()
        invariant
            from <= to <= chars@.len(),
            white == |c: char| is_white_space(c),
            trimmed_end(chars@.subrange(from as int, to as int), white) == trimmed_end(
                chars@.skip(from as int),
                white,
            ),
        decreases to,
    {
        proof {
            assert(chars@.subrange(from as int, to as int).drop_last() =~= chars@.subrange(
                from as int,
                to - 1,
            ));
        }
        to -= 1;
    }
    let mut res: Vec<char> = Vec::new();
    let mut i: usize = from;
    while i < to
        invariant
            from <= i <= to <= chars@.len(),
            res@ == chars@.subrange(from as int, i as int),
        decreases to - i,
    {
        res.push(chars[i]);
        i += 1;
    }
    res
}

/// Takes the characters `c` at the end of `chars` away.
pub fn trim_end_of(chars: &mut Vec<char>, c: char)
    ensures
        final(chars)@ == trimmed_end(old(chars)@, |d: char| d == c),
{
    let ghost whole = chars@;
    let ghost drop = |d: char| d == c;
    while chars.len() > 0 && chars[chars.len() - 1] == c
        invariant
            drop == |d: char| d == c,
            trimmed_end(chars@, drop) == trimmed_end(whole, drop),
        decreases chars@.len(),
    {
        chars.pop();
    }
}

/// Splitting loses nothing: the fields of a text, joined again, are the text.
pub proof fn law_fields_join_to_text(text: Seq<char>, separator: char)
    ensures
        joined(fields(text, separator), seq![separator]) == text,
        fields(text, separator).len() >= 1,
    decreases text.len(),
{
    if text.len() > 0 {
        let init = text.drop_last();
        let before = fields(init, separator);
        let after = fields(text, separator);
        law_fields_join_to_text(init, separator);
        if text.last() == separator {
            assert(after.drop_last() =~= before);
            assert(joined(after, seq![separator]) =~= text);
        } else if before.len() == 1 {
            assert(after.len() == 1);
            assert(joined(after, seq![separator]) =~= text);
        } else {
            assert(after.drop_last() =~= before.drop_last());
            assert(joined(after, seq![separator]) =~= joined(before, seq![separator]).push(
                text.last(),
            ));
            assert(joined(after, seq![separator]) =~= text);
        }
    } else {
        assert(joined(fields(text, separator), seq![separator]) =~= text);
    }
}

/// No field holds the separator.
pub proof fn law_fields_hold_no_separator(text: Seq<char>, separator: char)
    ensures
        forall|i: int|
            0 <= i < fields(text, separator).len() ==> !(#[trigger] fields(
                text,
                separator,
            )[i]).contains(separator),
    decreases text.len(),
{
    if text.len() > 0 {
        let before = fields(text.drop_last(), separator);
        let after = fields(text, separator);
        law_fields_hold_no_separator(text.drop_last(), separator);
        law_fields_join_to_text(text.drop_last(), separator);
        assert forall|i: int| 0 <= i < after.len() implies !(#[trigger] after[i]).contains(
            separator,
        ) by {
            if i < after.len() - 1 {
                assert(after[i] == before[i]);
            } else if text.last() != separator {
                assert(!before.last().contains(separator)) by {
                    assert(before.last() == before[before.len() - 1]);
                }
                if after[i].contains(separator) {
                    let k = choose|k: int| 0 <= k < after[i].len() && after[i][k] == separator;
                    assert(before.last()[k] == separator);
                }
            }
        }
    }
}

/// Text without the separator extends the last field.
proof fn lemma_fields_extend(text: Seq<char>, more: Seq<char>, separator: char)
    requires
        !more.contains(separator),
    ensures
        fields(text + more, separator) == fields(text, separator).drop_last().push(
            fields(text, separator).last() + more,
        ),
    decreases more.len(),
{
    law_fields_join_to_text(text, separator);
    if more.len() == 0 {
        assert(text + more =~= text);
        assert(fields(text, separator).last() + more =~= fields(text, separator).last());
        assert(fields(text, separator).drop_last().push(fields(text, separator).last())
            =~= fields(text, separator));
    } else {
        let init = more.drop_last();
        assert(!init.contains(separator)) by {
            if init.contains(separator) {
                let k = choose|k: int| 0 <= k < init.len() && init[k] == separator;
                assert(more[k] == separator);
            }
        }
        assert(more.last() != separator) by {
            assert(more[more.len() - 1] == more.last());
        }
        lemma_fields_extend(text, init, separator);
        assert((text + more).drop_last() =~= text + init);
        assert((text + more).last() == more.last());
        assert((fields(text, separator).last() + init).push(more.last()) =~= fields(
            text,
            separator,
        ).last() + more);
        assert(fields(text + more, separator) =~= fields(text, separator).drop_last().push(
            fields(text, separator).last() + more,
        ));
    }
}

/// Splitting undoes joining, for texts that do not hold the separator.
pub proof fn law_split_undoes_join(parts: Seq<Seq<char>>, separator: char)
    requires
        parts.len() >= 1,
        forall|i: int| 0 <= i < parts.len() ==> !(#[trigger] parts[i]).contains(separator),
    ensures
        fields(joined(parts, seq![separator]), separator) == parts,
    decreases parts.len(),
{
    let between = seq![separator];
    let empty = Seq::<char>::empty();
    let last = parts.last();
    assert(!last.contains(separator)) by {
        assert(last == parts[parts.len() - 1]);
    }
    if parts.len() == 1 {
        lemma_fields_extend(empty, last, separator);
        assert(empty + last =~= last);
        assert(fields(empty, separator) =~= seq![empty]);
        assert(fields(last, separator) =~= parts);
    } else {
        let init = parts.drop_last();
        law_split_undoes_join(init, separator);
        let before = joined(init, between);
        assert((before + between).drop_last() =~= before);
        assert(fields(before + between, separator) == init.push(empty));
        lemma_fields_extend(before + between, last, separator);
        assert(init.push(empty).drop_last() =~= init);
        assert(empty + last =~= last);
        assert(init.push(last) =~= parts);
    }
}

/// A text whose first and last characters stay is not trimmed.
pub proof fn lemma_trimmed_stays(text: Seq<char>)
    requires
        text.len() > 0 ==> !is_white_space(text[0]) && !is_white_space(text.last()),
    ensures
        trimmed(text) == text,
{
}

/// White space before a text and after it does not count.
pub proof fn law_trimming_ignores_white_space(before: Seq<char>, text: Seq<char>, after: Seq<char>)
    requires
        forall|i: int| 0 <= i < before.len() ==> is_white_space(#[trigger] before[i]),
        forall|i: int| 0 <= i < after.len() ==> is_white_space(#[trigger] after[i]),
    ensures
        trimmed(before + text + after) == trimmed(text),
{
    let white = |c: char| is_white_space(c);
    lemma_trimmed_start_skips(before, text + after, white);
    assert(before + text + after =~= before + (text + after));
    lemma_trimmed_start_keeps(text, after, white);
    let rest = trimmed_start(text, white);
    if rest.len() > 0 {
        lemma_trimmed_end_skips(rest, after, white);
    }
}

/// Characters to drop before a text are dropped.
proof fn lemma_trimmed_start_skips(before: Seq<char>, text: Seq<char>, drop: spec_fn(char) -> bool)
    requires
        forall|i: int| 0 <= i < before.len() ==> drop(#[trigger] before[i]),
    ensures
        trimmed_start(before + text, drop) == trimmed_start(text, drop),
    decreases before.len(),
{
    if before.len() == 0 {
        assert(before + text =~= text);
    } else {
        assert(drop(before[0]));
        let rest = before.skip(1);
        assert forall|i: int| 0 <= i < rest.len() implies drop(#[trigger] rest[i]) by {
            assert(drop(before[i + 1]));
        }
        lemma_trimmed_start_skips(rest, text, drop);
        assert((before + text).skip(1) =~= rest + text);
    }
}

/// Characters to drop after a text are dropped with it, if nothing of it stays, and stay otherwise.
proof fn lemma_trimmed_start_keeps(text: Seq<char>, after: Seq<char>, drop: spec_fn(char) -> bool)
    requires
        forall|i: int| 0 <= i < after.len() ==> drop(#[trigger] after[i]),
    ensures
        trimmed_start(text, drop).len() == 0 ==> trimmed_start(text + after, drop).len() == 0,
        trimmed_start(text, drop).len() > 0 ==> trimmed_start(text + after, drop) == trimmed_start(
            text,
            drop,
        ) + after,
    decreases text.len(),
{
    if text.len() == 0 {
        let empty = Seq::<char>::empty();
        assert(text + after =~= after + empty);
        lemma_trimmed_start_skips(after, empty, drop);
    } else if drop(text[0]) {
        lemma_trimmed_start_keeps(text.skip(1), after, drop);
        assert((text + after).skip(1) =~= text.skip(1) + after);
    }
}

/// Characters to drop after a text are dropped.
pub proof fn lemma_trimmed_end_skips(text: Seq<char>, after: Seq<char>, drop: spec_fn(char) -> bool)
    requires
        forall|i: int| 0 <= i < after.len() ==> drop(#[trigger] after[i]),
    ensures
        trimmed_end(text + after, drop) == trimmed_end(text, drop),
    decreases after.len(),
{
    if after.len() == 0 {
        assert(text + after =~= text);
    } else {
        let init = after.drop_last();
        assert(drop(after[after.len() - 1]));
        assert forall|i: int| 0 <= i < init.len() implies drop(#[trigger] init[i]) by {
            assert(drop(after[i]));
        }
        lemma_trimmed_end_skips(text, init, drop);
        assert((text + after).drop_last() =~= text + init);
    }
}

/// A pattern that ends in a character that `more` does not hold occurs no later than before.
pub proof fn lemma_occurs_not_later(text: Seq<char>, more: Seq<char>, pattern: Seq<char>)
    requires
        pattern.len() > 0,
        !more.contains(pattern.last()),
    ensures
        occurs(text + more, pattern) ==> occurs(text, pattern),
{
    if occurs(text + more, pattern) {
        let at = choose|at: int| occurrence(text + more, at, pattern);
        let end = at + pattern.len();
        assert((text + more).subrange(at, end)[pattern.len() - 1] == pattern.last());
        if end > text.len() {
            assert(more[end - 1 - text.len()] == pattern.last());
        }
        assert(text.subrange(at, end) =~= (text + more).subrange(at, end));
        assert(occurrence(text, at, pattern));
    }
}

/// The part of a text in which the pattern does not start stays.
pub proof fn lemma_replaced_passes(
    before: Seq<char>,
    text: Seq<char>,
    pattern: Seq<char>,
    with: Seq<char>,
)
    requires
        pattern.len() > 0,
        forall|i: int| 0 <= i < before.len() ==> !occurrence(before + text, i, pattern),
    ensures
        replaced(before + text, pattern, with) == before + replaced(text, pattern, with),
    decreases before.len(),
{
    let both = before + text;
    if before.len() == 0 {
        assert(both =~= text);
        assert(before + replaced(text, pattern, with) =~= replaced(text, pattern, with));
    } else {
        let rest = before.skip(1);
        assert(!occurrence(both, 0, pattern));
        assert(both.skip(1) =~= rest + text);
        assert forall|i: int| 0 <= i < rest.len() implies !occurrence(rest + text, i, pattern) by {
            assert(!occurrence(both, i + 1, pattern));
            if occurrence(rest + text, i, pattern) {
                assert(both.subrange(i + 1, i + 1 + pattern.len()) =~= (rest + text).subrange(
                    i,
                    i + pattern.len(),
                ));
            }
        }
        lemma_replaced_passes(rest, text, pattern, with);
        assert(replaced(both, pattern, with) =~= before + replaced(text, pattern, with));
    }
}

/// A text in which the pattern does not occur stays as it is.
pub proof fn law_replacing_nothing(text: Seq<char>, pattern: Seq<char>, with: Seq<char>)
    requires
        pattern.len() > 0,
        !occurs(text, pattern),
    ensures
        replaced(text, pattern, with) == text,
{
    let empty = Seq::<char>::empty();
    assert(text + empty =~= text);
    lemma_replaced_passes(text, empty, pattern, with);
}

/// A pattern that occurs once is replaced there. It may hold its first character only once, so that
/// it cannot overlap with itself.
pub proof fn law_replacing_once(
    before: Seq<char>,
    pattern: Seq<char>,
    after: Seq<char>,
    with: Seq<char>,
)
    requires
        pattern.len() > 0,
        !pattern.skip(1).contains(pattern[0]),
        !occurs(before, pattern),
        !occurs(after, pattern),
    ensures
        replaced(before + pattern + after, pattern, with) == before + with + after,
{
    let rest = pattern + after;
    assert(before + pattern + after =~= before + rest);
    assert forall|i: int| 0 <= i < before.len() implies !occurrence(before + rest, i, pattern) by {
        if occurrence(before + rest, i, pattern) {
            let end = i + pattern.len();
            let found = (before + rest).subrange(i, end);
            if end <= before.len() {
                assert(before.subrange(i, end) =~= found);
                assert(occurrence(before, i, pattern));
            } else {
                let k = before.len() - i;
                assert(found[k] == pattern[0]);
                assert(pattern.skip(1)[k - 1] == pattern[0]);
            }
        }
    }
    lemma_replaced_passes(before, rest, pattern, with);
    assert(rest.subrange(0, pattern.len() as int) =~= pattern);
    assert(rest.skip(pattern.len() as int) =~= after);
    law_replacing_nothing(after, pattern, with);
    assert(before + (with + after) =~= before + with + after);
}

/// The texts of strings are what they hold, one for one.
pub proof fn law_texts(strings: Seq<String>)
    ensures
        texts(strings).len() == strings.len(),
        forall|i: int| 0 <= i < strings.len() ==> (#[trigger] texts(strings)[i]) == strings[i]@,
{
}

/// A pattern stands in a text at a place exactly if the text is that much, the pattern and some rest.
pub proof fn law_occurrence(text: Seq<char>, at: int, pattern: Seq<char>)
    ensures
        occurrence(text, at, pattern) <==> exists|before: Seq<char>, after: Seq<char>|
            before.len() == at && text == #[trigger] (before + pattern + after),
{
    if occurrence(text, at, pattern) {
        let before = text.take(at);
        let after = text.skip(at + pattern.len());
        assert(text =~= before + pattern + after) by {
            assert forall|i: int| 0 <= i < text.len() implies text[i] == (before + pattern
                + after)[i] by {
                if at <= i < at + pattern.len() {
                    assert(text.subrange(at, at + pattern.len())[i - at] == pattern[i - at]);
                }
            }
        }
    }
    assert forall|before: Seq<char>, after: Seq<char>|
        before.len() == at && text == #[trigger] (before + pattern + after) implies occurrence(
        text,
        at,
        pattern,
    ) by {
        assert(text.subrange(at, at + pattern.len()) =~= pattern);
    }
}

/// A pattern occurs in a text exactly if the text is something, the pattern and something else.
pub proof fn law_occurs(text: Seq<char>, pattern: Seq<char>)
    ensures
        occurs(text, pattern) <==> exists|before: Seq<char>, after: Seq<char>|
            text == #[trigger] (before + pattern + after),
{
    if occurs(text, pattern) {
        let at = choose|at: int| occurrence(text, at, pattern);
        law_occurrence(text, at, pattern);
    }
    assert forall|before: Seq<char>, after: Seq<char>|
        text == #[trigger] (before + pattern + after) implies occurs(text, pattern) by {
        law_occurrence(text, before.len() as int, pattern);
        assert(occurrence(text, before.len() as int, pattern));
    }
}

/// The first occurrence of a pattern is replaced, what stands before it stays, and replacing goes on
/// behind it.
pub proof fn law_replacing_first(
    text: Seq<char>,
    at: int,
    pattern: Seq<char>,
    with: Seq<char>,
)
    requires
        pattern.len() > 0,
        0 <= at,
        at + pattern.len() <= text.len(),
        text.subrange(at, at + pattern.len()) == pattern,
        forall|k: int|
            0 <= k < at ==> #[trigger] text.subrange(k, k + pattern.len()) != pattern,
    ensures
        replaced(text, pattern, with) == text.take(at) + with + replaced(
            text.skip(at + pattern.len()),
            pattern,
            with,
        ),
{
    let before = text.take(at);
    let rest = text.skip(at);
    assert(text =~= before + rest);
    assert forall|i: int| 0 <= i < before.len() implies !occurrence(before + rest, i, pattern) by {
        assert(text.subrange(i, i + pattern.len()) != pattern);
    }
    lemma_replaced_passes(before, rest, pattern, with);
    assert(rest.subrange(0, pattern.len() as int) =~= pattern);
    assert(rest.skip(pattern.len() as int) =~= text.skip(at + pattern.len()));
    assert(before + (with + replaced(text.skip(at + pattern.len()), pattern, with)) =~= before
        + with + replaced(text.skip(at + pattern.len()), pattern, with));
}

/// Joined texts stand one after the other with the separator between them: nothing for none, one
/// text for one, and each further one behind a separator.
pub proof fn law_joining(parts: Seq<Seq<char>>, separator: Seq<char>, last: Seq<char>)
    ensures
        joined(Seq::empty(), separator) == Seq::<char>::empty(),
        joined(seq![last], separator) == last,
        parts.len() > 0 ==> joined(parts.push(last), separator) == joined(parts, separator)
            + separator + last,
{
    assert(parts.push(last).drop_last() =~= parts);
}

/// Trimming takes away exactly the white space around a text.
pub proof fn law_trimming(before: Seq<char>, core: Seq<char>, after: Seq<char>)
    requires
        forall|i: int| 0 <= i < before.len() ==> is_white_space(#[trigger] before[i]),
        forall|i: int| 0 <= i < after.len() ==> is_white_space(#[trigger] after[i]),
        core.len() > 0 ==> !is_white_space(core[0]) && !is_white_space(core.last()),
    ensures
        trimmed(before + core + after) == core,
{
    law_trimming_ignores_white_space(before, core, after);
    lemma_trimmed_stays(core);
}

/// Trimming at the end takes away exactly the repetitions of the character there.
pub proof fn law_trimming_at_the_end(core: Seq<char>, c: char, after: Seq<char>)
    requires
        core.len() > 0 ==> core.last() != c,
        forall|i: int| 0 <= i < after.len() ==> #[trigger] after[i] == c,
    ensures
        trimmed_end(core + after, |d: char| d == c) == core,
{
    lemma_trimmed_end_skips(core, after, |d: char| d == c);
}

/// The white space is, in ASCII, the space and the controls from tabulator to carriage return, and
/// elsewhere the spaces and separators of Unicode.
pub proof fn law_white_space(c: char)
    ensures
        (c as int) < 0x80 ==> (is_white_space(c) <==> c == ' ' || 9 <= c as int <= 13),
        (c as int) >= 0x80 ==> (is_white_space(c) <==> {
            ||| c as int == 0x85 || c as int == 0xA0 || c as int == 0x1680
            ||| 0x2000 <= c as int <= 0x200A
            ||| c as int == 0x2028 || c as int == 0x2029 || c as int == 0x202F
            ||| c as int == 0x205F || c as int == 0x3000
        }),
{
}

} // verus!
