//! Replacing the inner text of the Nth tagged line of a build manifest.
use vstd::prelude::*;

use crate::error::CustomError;
use crate::text::{
    chars_of, find_from, find_text_from, has_text, lemma_find_from, lemma_find_from_first, occurs_at,
};

verus! {

/// The characters of each line.
pub open spec fn line_views(lines: Seq<String>) -> Seq<Seq<char>> {
    lines.map_values(|l: String| l@)
}

/// The sequence that closes a tag's inner text.
pub open spec fn closing() -> Seq<char> {
    seq!['<', '/']
}

/// How many of `lines` contain `tag`.
pub open spec fn tag_count(lines: Seq<Seq<char>>, tag: Seq<char>) -> nat
    decreases lines.len(),
{
    if lines.len() == 0 {
        0
    } else {
        tag_count(lines.drop_last(), tag) + if has_text(lines.last(), tag) {
            1nat
        } else {
            0nat
        }
    }
}

/// Line `k` contains `tag` and exactly `n` lines before it do.
pub open spec fn is_nth_tagged(lines: Seq<Seq<char>>, tag: Seq<char>, n: int, k: int) -> bool {
    0 <= k < lines.len() && has_text(lines[k], tag) && tag_count(lines.take(k), tag) == n
}

/// `line` with the text between the end of its first `tag` and the next `</` replaced by `v`;
/// none where the line lacks either delimiter.
pub open spec fn replaced_line(line: Seq<char>, tag: Seq<char>, v: Seq<char>) -> Option<Seq<char>> {
    match find_from(line, tag, 0) {
        None => None,
        Some(p) => match find_from(line, closing(), p + tag.len()) {
            None => None,
            Some(e) => Some(line.subrange(0, p + tag.len()) + v + line.subrange(e, line.len() as int)),
        },
    }
}

/// `lines` with the `n`-th line that contains `tag` (counting from zero) replaced as
/// `replaced_line` says; none where there is no such line or it cannot be replaced.
pub open spec fn replaced_lines(lines: Seq<Seq<char>>, tag: Seq<char>, v: Seq<char>, n: int) -> Option<
    Seq<Seq<char>>,
> {
    if exists|k: int| is_nth_tagged(lines, tag, n, k) {
        let k = choose|k: int| is_nth_tagged(lines, tag, n, k);
        match replaced_line(lines[k], tag, v) {
            Some(l) => Some(lines.update(k, l)),
            None => None,
        }
    } else {
        None
    }
}

/// Each line followed by a newline.
pub open spec fn joined(lines: Seq<Seq<char>>) -> Seq<char>
    decreases lines.len(),
{
    if lines.len() == 0 {
        Seq::empty()
    } else {
        joined(lines.drop_last()) + lines.last() + seq!['\n']
    }
}

proof fn lemma_tag_count_step(lines: Seq<Seq<char>>, tag: Seq<char>, i: int)
    requires
        0 <= i < lines.len(),
    ensures
        tag_count(lines.take(i + 1), tag) == tag_count(lines.take(i), tag) + if has_text(
            lines[i],
            tag,
        ) {
            1nat
        } else {
            0nat
        },
{
    assert(lines.take(i + 1).drop_last() =~= lines.take(i));
}

/// Counting tagged lines over longer prefixes never goes down, and passes a tagged line.
proof fn lemma_tag_count_grows(lines: Seq<Seq<char>>, tag: Seq<char>, a: int, b: int)
    requires
        0 <= a < b <= lines.len(),
    ensures
        tag_count(lines.take(a), tag) + (if has_text(lines[a], tag) {
            1nat
        } else {
            0nat
        }) <= tag_count(lines.take(b), tag),
    decreases b - a,
{
    lemma_tag_count_step(lines, tag, b - 1);
    if a < b - 1 {
        lemma_tag_count_grows(lines, tag, a, b - 1);
    }
}

/// At most one line is the `n`-th tagged one.
proof fn lemma_nth_tagged_unique(lines: Seq<Seq<char>>, tag: Seq<char>, n: int, k1: int, k2: int)
    requires
        is_nth_tagged(lines, tag, n, k1),
        is_nth_tagged(lines, tag, n, k2),
    ensures
        k1 == k2,
{
    if k1 < k2 {
        lemma_tag_count_grows(lines, tag, k1, k2);
    } else if k2 < k1 {
        lemma_tag_count_grows(lines, tag, k2, k1);
    }
}

/// An `n`-th tagged line exists exactly when `n` is below the number of tagged lines.
proof fn lemma_nth_tagged_exists(lines: Seq<Seq<char>>, tag: Seq<char>, n: int)
    requires
        0 <= n,
    ensures
        (exists|k: int| is_nth_tagged(lines, tag, n, k)) <==> n < tag_count(lines, tag),
    decreases lines.len(),
{
    assert(lines.take(lines.len() as int) =~= lines);
    if exists|k: int| is_nth_tagged(lines, tag, n, k) {
        let k = choose|k: int| is_nth_tagged(lines, tag, n, k);
        lemma_tag_count_grows(lines, tag, k, lines.len() as int);
    }
    if n < tag_count(lines, tag) {
        let m = lines.len() - 1;
        let init = lines.drop_last();
        if n < tag_count(init, tag) {
            lemma_nth_tagged_exists(init, tag, n);
            let k = choose|k: int| is_nth_tagged(init, tag, n, k);
            assert(init.take(k) =~= lines.take(k));
            assert(is_nth_tagged(lines, tag, n, k));
        } else {
            assert(lines.take(m) =~= init);
            assert(is_nth_tagged(lines, tag, n, m));
        }
    }
}

/// Replacing again, with the same `v`, inside a line already replaced gives that line back,
/// provided `v` holds no `</`; the line still carries the tag.
proof fn lemma_replaced_line_again(line: Seq<char>, tag: Seq<char>, v: Seq<char>)
    requires
        replaced_line(line, tag, v) is Some,
        !has_text(v, closing()),
    ensures
        has_text(replaced_line(line, tag, v)->Some_0, tag),
        replaced_line(replaced_line(line, tag, v)->Some_0, tag, v) == replaced_line(line, tag, v),
{
    let new = replaced_line(line, tag, v)->Some_0;
    let p = find_from(line, tag, 0)->Some_0;
    let start = p + tag.len();
    lemma_find_from(line, tag, 0);
    let e = find_from(line, closing(), start)->Some_0;
    lemma_find_from(line, closing(), start);
    lemma_find_from(v, closing(), 0);
    assert(new.subrange(0, start) =~= line.subrange(0, start));
    assert forall|j: int| 0 <= j <= p implies occurs_at(new, tag, j) == occurs_at(line, tag, j) by {
        assert(new.subrange(j, j + tag.len()) =~= line.subrange(j, j + tag.len()));
    }
    lemma_find_from_first(new, tag, 0, p);
    let m = start + v.len();
    assert(new.subrange(m, m + 2) =~= line.subrange(e, e + 2));
    assert forall|j: int| start <= j < m implies !occurs_at(new, closing(), j) by {
        if j + 2 <= m {
            assert(new.subrange(j, j + 2) =~= v.subrange(j - start, j - start + 2));
            assert(!occurs_at(v, closing(), j - start));
        } else {
            assert(new[j + 1] == line[e]);
            assert(line.subrange(e, e + 2)[0] == '<');
            assert(closing()[1] == '/');
        }
    }
    lemma_find_from_first(new, closing(), start, m);
    assert(new.subrange(0, start) + v + new.subrange(m, new.len() as int) =~= new);
}

/// Only the chosen line changes: every other line is kept as it was, and the chosen one,
/// the `n`-th that contains `tag`, is replaced as `replaced_line` says.
pub proof fn lemma_replace_touches_one_line(
    lines: Seq<Seq<char>>,
    tag: Seq<char>,
    v: Seq<char>,
    n: int,
)
    requires
        replaced_lines(lines, tag, v, n) is Some,
    ensures
        ({
            let new_lines = replaced_lines(lines, tag, v, n)->Some_0;
            &&& new_lines.len() == lines.len()
            &&& forall|i: int|
                0 <= i < lines.len() && !is_nth_tagged(lines, tag, n, i) ==> new_lines[i]
                    == lines[i]
            &&& forall|k: int|
                is_nth_tagged(lines, tag, n, k) ==> replaced_line(lines[k], tag, v) == Some(
                    new_lines[k],
                )
        }),
{
    let k = choose|k: int| is_nth_tagged(lines, tag, n, k);
    assert forall|c: int| is_nth_tagged(lines, tag, n, c) implies c == k by {
        lemma_nth_tagged_unique(lines, tag, n, c, k);
    }
}

/// Running the replacement again, with the same value, on its own result changes nothing,
/// provided the value holds no `</`.
pub proof fn lemma_replace_idempotent(lines: Seq<Seq<char>>, tag: Seq<char>, v: Seq<char>, n: int)
    requires
        replaced_lines(lines, tag, v, n) is Some,
        !has_text(v, closing()),
    ensures
        replaced_lines(replaced_lines(lines, tag, v, n)->Some_0, tag, v, n) == replaced_lines(
            lines,
            tag,
            v,
            n,
        ),
        joined(replaced_lines(replaced_lines(lines, tag, v, n)->Some_0, tag, v, n)->Some_0)
            == joined(replaced_lines(lines, tag, v, n)->Some_0),
{
    let k = choose|k: int| is_nth_tagged(lines, tag, n, k);
    let new_lines = replaced_lines(lines, tag, v, n)->Some_0;
    lemma_replaced_line_again(lines[k], tag, v);
    assert(new_lines.take(k) =~= lines.take(k));
    assert(is_nth_tagged(new_lines, tag, n, k));
    let c = choose|c: int| is_nth_tagged(new_lines, tag, n, c);
    lemma_nth_tagged_unique(new_lines, tag, n, c, k);
    assert(new_lines.update(k, new_lines[k]) =~= new_lines);
}

/// An index at or past the number of tagged lines has no line to replace.
pub proof fn lemma_index_past_count(lines: Seq<Seq<char>>, tag: Seq<char>, v: Seq<char>, n: int)
    requires
        tag_count(lines, tag) <= n,
    ensures
        replaced_lines(lines, tag, v, n) is None,
{
    lemma_nth_tagged_exists(lines, tag, n);
}

/// An index below the number of tagged lines picks one line, and the replacement succeeds
/// exactly where that line has a `</` after its tag.
pub proof fn lemma_index_below_count(lines: Seq<Seq<char>>, tag: Seq<char>, v: Seq<char>, n: int)
    requires
        0 <= n < tag_count(lines, tag),
    ensures
        exists|k: int|
            is_nth_tagged(lines, tag, n, k) && (replaced_lines(lines, tag, v, n) is Some
                <==> replaced_line(lines[k], tag, v) is Some),
{
    lemma_nth_tagged_exists(lines, tag, n);
    let k = choose|k: int| is_nth_tagged(lines, tag, n, k);
    assert(is_nth_tagged(lines, tag, n, k) && (replaced_lines(lines, tag, v, n) is Some
        <==> replaced_line(lines[k], tag, v) is Some));
}

proof fn lemma_joined_concat(a: Seq<Seq<char>>, b: Seq<Seq<char>>)
    ensures
        joined(a + b) == joined(a) + joined(b),
    decreases b.len(),
{
    if b.len() == 0 {
        assert(a + b =~= a);
        assert(joined(a) + joined(b) =~= joined(a));
    } else {
        assert((a + b).drop_last() =~= a + b.drop_last());
        lemma_joined_concat(a, b.drop_last());
        assert(joined(a + b) =~= joined(a) + joined(b));
    }
}

proof fn lemma_joined_split(s: Seq<Seq<char>>, k: int)
    requires
        0 <= k < s.len(),
    ensures
        joined(s) == joined(s.take(k)) + s[k] + seq!['\n'] + joined(s.skip(k + 1)),
{
    let one = seq![s[k]];
    assert(s =~= s.take(k) + one + s.skip(k + 1));
    lemma_joined_concat(s.take(k) + one, s.skip(k + 1));
    lemma_joined_concat(s.take(k), one);
    assert(one.drop_last() =~= Seq::<Seq<char>>::empty());
    assert(joined(Seq::<Seq<char>>::empty()) == Seq::<char>::empty());
    assert(one.last() == s[k]);
    assert(joined(one) =~= s[k] + seq!['\n']);
    assert(joined(s) =~= joined(s.take(k)) + s[k] + seq!['\n'] + joined(s.skip(k + 1)));
}

/// The new text differs from the old only in the chosen line: the text of the lines before
/// it and of the lines after it, each with its newline, is the same in both.
pub proof fn lemma_replace_text_around(lines: Seq<Seq<char>>, tag: Seq<char>, v: Seq<char>, n: int)
    requires
        replaced_lines(lines, tag, v, n) is Some,
    ensures
        exists|k: int|
            #![trigger is_nth_tagged(lines, tag, n, k)]
            is_nth_tagged(lines, tag, n, k) && joined(lines) == joined(lines.take(k)) + lines[k]
                + seq!['\n'] + joined(lines.skip(k + 1)) && joined(
                replaced_lines(lines, tag, v, n)->Some_0,
            ) == joined(lines.take(k)) + replaced_line(lines[k], tag, v)->Some_0 + seq!['\n']
                + joined(lines.skip(k + 1)),
{
    let k = choose|k: int| is_nth_tagged(lines, tag, n, k);
    let new_lines = replaced_lines(lines, tag, v, n)->Some_0;
    lemma_joined_split(lines, k);
    lemma_joined_split(new_lines, k);
    assert(new_lines.take(k) =~= lines.take(k));
    assert(new_lines.skip(k + 1) =~= lines.skip(k + 1));
}

/// The index of the `n`-th line of `lines` (counting from zero) that contains `tag`.
pub fn tagged_line_index(tag: &str, lines: &Vec<String>, n: u8) -> (r: Option<usize>)
    ensures
        match r {
            Some(k) => is_nth_tagged(line_views(lines@), tag@, n as int, k as int),
            None => forall|k: int| !is_nth_tagged(line_views(lines@), tag@, n as int, k),
        },
{
    let ghost lv = line_views(lines@);
    let tag_chars = chars_of(tag);
    let mut counter: usize = 0;
    let mut i: usize = 0;
    while i < lines.len()
        invariant
            lv == line_views(lines@),
            tag_chars@ == tag@,
            i <= lines.len(),
            counter <= i,
            counter == tag_count(lv.take(i as int), tag@),
            forall|k: int| 0 <= k < i ==> !is_nth_tagged(lv, tag@, n as int, k),
        decreases lines.len() - i,
    {
        let line_chars = chars_of(lines[i].as_str());
        let tagged = find_text_from(&line_chars, &tag_chars, 0).is_some();
        assert(lv[i as int] == lines@[i as int]@);
        proof {
            lemma_tag_count_step(lv, tag@, i as int);
        }
        if tagged {
            if counter == n as usize {
                return Some(i);
            }
            counter = counter + 1;
        }
        i = i + 1;
    }
    None
}

/// `line` with the text between the end of its first `tag` and the next `</` replaced by
/// `replacement`; `None` where the line lacks either delimiter.
pub fn replace_in_line(line: &str, tag: &str, replacement: &str) -> (r: Option<String>)
    ensures
        match r {
            Some(s) => replaced_line(line@, tag@, replacement@) == Some(s@),
            None => replaced_line(line@, tag@, replacement@) is None,
        },
{
    let line_chars = chars_of(line);
    let tag_chars = chars_of(tag);
    let close: Vec<char> = vec!['<', '/'];
    assert(close@ =~= closing());
    let p = match find_text_from(&line_chars, &tag_chars, 0) {
        Some(p) => p,
        None => return None,
    };
    proof {
        lemma_find_from(line@, tag@, 0);
    }
    assert(occurs_at(line@, tag@, p as int));
    assert(p + tag_chars.len() <= line_chars.len());
    let start = p + tag_chars.len();
    let e = match find_text_from(&line_chars, &close, start) {
        Some(e) => e,
        None => return None,
    };
    proof {
        lemma_find_from(line@, closing(), start as int);
    }
    let mut s = line.substring_char(0, start).to_owned();
    s.append(replacement);
    s.append(line.substring_char(e, line_chars.len()));
    Some(s)
}

/// Each line of `lines` followed by a newline, with line `k` given as `new_line` instead.
fn join_with(lines: &Vec<String>, k: usize, new_line: &String) -> (r: String)
    requires
        k < lines.len(),
    ensures
        r@ == joined(line_views(lines@).update(k as int, new_line@)),
{
    let ghost target = line_views(lines@).update(k as int, new_line@);
    let mut r = String::new();
    let mut i: usize = 0;
    while i < lines.len()
        invariant
            target == line_views(lines@).update(k as int, new_line@),
            k < lines.len(),
            i <= lines.len(),
            r@ == joined(target.take(i as int)),
        decreases lines.len() - i,
    {
        if i == k {
            r.append(new_line.as_str());
        } else {
            r.append(lines[i].as_str());
        }
        r.append("\n");
        proof {
            reveal_strlit("\n");
            assert(target.take(i + 1).drop_last() =~= target.take(i as int));
        }
        i = i + 1;
    }
    assert(target.take(lines.len() as int) =~= target);
    r
}

/// The manifest text, one newline after each line, with the `search_word_count`-th line that
/// contains `search_word` (counting from zero) given `replacement_string` between the end of
/// its first `search_word` and the next `</`.
///
/// Fails with `VersionNotFound`, and produces nothing, where fewer lines carry the tag or the
/// chosen line has no `</` after it.
pub fn replace_pom_version(
    search_word: &str,
    replacement_string: &str,
    lines: &Vec<String>,
    search_word_count: u8,
) -> (r: Result<String, CustomError>)
    ensures
        match replaced_lines(line_views(lines@), search_word@, replacement_string@, search_word_count as int) {
            Some(new_lines) => r is Ok && r->Ok_0@ == joined(new_lines),
            None => r == Err::<String, CustomError>(CustomError::VersionNotFound),
        },
        tag_count(line_views(lines@), search_word@) <= search_word_count ==> r == Err::<
            String,
            CustomError,
        >(CustomError::VersionNotFound),
{
    let ghost lv = line_views(lines@);
    let ghost n = search_word_count as int;
    proof {
        lemma_nth_tagged_exists(lv, search_word@, n);
    }
    let k = match tagged_line_index(search_word, lines, search_word_count) {
        Some(k) => k,
        None => return Err(CustomError::VersionNotFound),
    };
    proof {
        let c = choose|c: int| is_nth_tagged(lv, search_word@, n, c);
        lemma_nth_tagged_unique(lv, search_word@, n, k as int, c);
    }
    assert(lv[k as int] == lines@[k as int]@);
    let new_line = match replace_in_line(lines[k].as_str(), search_word, replacement_string) {
        Some(l) => l,
        None => return Err(CustomError::VersionNotFound),
    };
    Ok(join_with(lines, k, &new_line))
}

} // verus!
