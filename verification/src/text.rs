//! Character-level helpers over `&str` and `String`.
//!
//! Most operations are verified loops over characters; the few delegated to
//! the standard library are small wrappers with exact contracts.

use vstd::prelude::*;
use vstd::string::StrSliceExecFns;
use vstd::string::StringExecFns;

verus! {

/// Relies on `str::split_once` with a `':'` delimiter: splits at the first
/// colon, the prefix holding no colon.
#[verifier::external_body]
pub(crate) fn split_colon(s: &str) -> (r: Option<(&str, &str)>)
    ensures
        match r {
            Some((a, b)) => s@ == a@ + seq![':'] + b@ && !a@.contains(':'),
            None => !s@.contains(':'),
        },
{
    s.split_once(':')
}

/// Relies on `str::ends_with` with a `&str` pattern: true exactly when the
/// pattern matches a suffix of the string.
#[verifier::external_body]
pub(crate) fn str_ends_with(s: &str, suffix: &str) -> (r: bool)
    ensures
        r == (suffix@.len() <= s@.len() && s@.subrange(
            s@.len() - suffix@.len(),
            s@.len() as int,
        ) == suffix@),
{
    s.ends_with(suffix)
}

/// Relies on `String::push`: appends one character.
#[verifier::external_body]
pub(crate) fn push_char(s: &mut String, c: char)
    ensures
        final(s)@ == old(s)@.push(c),
{
    s.push(c)
}

/// Whether two string slices hold the same characters.
pub fn str_eq(a: &str, b: &str) -> (r: bool)
    ensures
        r == (a@ == b@),
{
    let sa = a.to_owned();
    let sb = b.to_owned();
    sa == sb
}

/// The characters of a string slice, as a vector.
pub fn chars_vec(s: &str) -> (r: Vec<char>)
    ensures
        r@ == s@,
{
    let n = s.unicode_len();
    let mut cs: Vec<char> = Vec::new();
    let mut i: usize = 0;
    while i < n
        invariant
            n == s@.len(),
            i <= n,
            cs@ == s@.subrange(0, i as int),
        decreases n - i,
    {
        let c = s.get_char(i);
        cs.push(c);
        i += 1;
        proof {
            assert(cs@ =~= s@.subrange(0, i as int));
        }
    }
    proof {
        assert(cs@ =~= s@);
    }
    cs
}

/// A string holding the given characters.
pub fn string_from_chars(cs: &[char]) -> (r: String)
    ensures
        r@ == cs@,
{
    let mut s = String::new();
    let mut i: usize = 0;
    while i < cs.len()
        invariant
            i <= cs@.len(),
            s@ == cs@.subrange(0, i as int),
        decreases cs@.len() - i,
    {
        push_char(&mut s, cs[i]);
        i += 1;
        proof {
            assert(s@ =~= cs@.subrange(0, i as int));
        }
    }
    proof {
        assert(s@ =~= cs@);
    }
    s
}

/// Lexicographic order on character sequences, by code point, shorter
/// prefixes first.
pub open spec fn str_lt(a: Seq<char>, b: Seq<char>) -> bool
    decreases a.len(),
{
    if b.len() == 0 {
        false
    } else if a.len() == 0 {
        true
    } else if a[0] != b[0] {
        (a[0] as int) < (b[0] as int)
    } else {
        str_lt(a.drop_first(), b.drop_first())
    }
}

/// Dropping an equal head keeps the order between the tails.
proof fn lemma_str_lt_skip(a: Seq<char>, b: Seq<char>, i: int)
    requires
        0 <= i < a.len(),
        i < b.len(),
        a[i] == b[i],
    ensures
        str_lt(a.skip(i), b.skip(i)) == str_lt(a.skip(i + 1), b.skip(i + 1)),
{
    assert(a.skip(i).len() > 0 && b.skip(i).len() > 0);
    assert(a.skip(i)[0] == a[i]);
    assert(b.skip(i)[0] == b[i]);
    assert(a.skip(i).drop_first() =~= a.skip(i + 1));
    assert(b.skip(i).drop_first() =~= b.skip(i + 1));
}

/// Whether the first string sorts strictly before the second.
pub fn str_lt_exec(a: &str, b: &str) -> (r: bool)
    ensures
        r == str_lt(a@, b@),
{
    let ca = chars_vec(a);
    let cb = chars_vec(b);
    proof {
        assert(a@.skip(0) =~= a@);
        assert(b@.skip(0) =~= b@);
    }
    let mut i: usize = 0;
    while i < ca.len() && i < cb.len()
        invariant
            ca@ == a@,
            cb@ == b@,
            i <= a@.len(),
            i <= b@.len(),
            str_lt(a@, b@) == str_lt(a@.skip(i as int), b@.skip(i as int)),
        decreases a@.len() - i,
    {
        if ca[i] != cb[i] {
            proof {
                assert(a@.skip(i as int)[0] == a@[i as int]);
                assert(b@.skip(i as int)[0] == b@[i as int]);
            }
            return ca[i] < cb[i];
        }
        proof {
            lemma_str_lt_skip(a@, b@, i as int);
        }
        i += 1;
    }
    proof {
        if i < cb.len() {
            assert(a@.skip(i as int).len() == 0);
            assert(b@.skip(i as int).len() > 0);
        } else if i < ca.len() {
            assert(b@.skip(i as int).len() == 0);
        } else {
            assert(a@.skip(i as int).len() == 0);
            assert(b@.skip(i as int).len() == 0);
        }
    }
    i < cb.len()
}

/// The dot-joined form of a list of parts: the parts in order, one `'.'`
/// between neighbours.
pub open spec fn join_dots(parts: Seq<Seq<char>>) -> Seq<char>
    decreases parts.len(),
{
    if parts.len() == 0 {
        Seq::empty()
    } else if parts.len() == 1 {
        parts[0]
    } else {
        parts[0] + seq!['.'] + join_dots(parts.drop_first())
    }
}

/// The list of dot-free parts a string splits into at every `'.'`.
pub open spec fn split_dots_spec(s: Seq<char>) -> Seq<Seq<char>>
    decreases s.len(),
{
    if s.len() == 0 {
        seq![Seq::<char>::empty()]
    } else {
        let rest = split_dots_spec(s.drop_first());
        if s[0] == '.' {
            seq![Seq::<char>::empty()] + rest
        } else {
            rest.update(0, seq![s[0]] + rest[0])
        }
    }
}

/// A split has at least one part.
pub proof fn lemma_split_dots_len(s: Seq<char>)
    ensures
        split_dots_spec(s).len() >= 1,
    decreases s.len(),
{
    if s.len() > 0 {
        lemma_split_dots_len(s.drop_first());
    }
}

/// Appending a character extends the split: a dot opens an empty part, any
/// other character extends the last part.
pub proof fn lemma_split_dots_push(s: Seq<char>, c: char)
    ensures
        c == '.' ==> split_dots_spec(s.push(c)) =~~= split_dots_spec(s).push(Seq::empty()),
        c != '.' ==> split_dots_spec(s.push(c)) =~~= split_dots_spec(s).update(
            split_dots_spec(s).len() - 1,
            split_dots_spec(s).last().push(c),
        ),
    decreases s.len(),
{
    lemma_split_dots_len(s);
    if s.len() == 0 {
        assert(s.push(c).drop_first() =~= s);
        assert(seq![c].push(c)[0] == c);
        if c != '.' {
            assert(seq![c] + Seq::<char>::empty() =~= Seq::<char>::empty().push(c));
        }
    } else {
        lemma_split_dots_push(s.drop_first(), c);
        lemma_split_dots_len(s.drop_first());
        assert(s.push(c).drop_first() =~= s.drop_first().push(c));
        assert(s.push(c)[0] == s[0]);
    }
}

/// Splits a string at every `'.'`.
pub fn split_dots(s: &str) -> (r: Vec<String>)
    ensures
        r.deep_view() == split_dots_spec(s@),
        join_dots(r.deep_view()) == s@,
        forall|i: int| 0 <= i < r@.len() ==> !(#[trigger] r.deep_view()[i]).contains('.'),
        r@.len() >= 1,
{
    let cs = chars_vec(s);
    let mut parts: Vec<String> = Vec::new();
    let mut current: Vec<char> = Vec::new();
    let mut i: usize = 0;
    proof {
        assert(parts.deep_view().push(current@) =~~= split_dots_spec(s@.subrange(0, 0)));
    }
    while i < cs.len()
        invariant
            i <= cs@.len(),
            cs@ == s@,
            join_dots(parts.deep_view().push(current@)) == s@.subrange(0, i as int),
            parts.deep_view().push(current@) == split_dots_spec(s@.subrange(0, i as int)),
            forall|j: int|
                0 <= j < parts@.len() ==> !(#[trigger] parts.deep_view()[j]).contains('.'),
            !current@.contains('.'),
        decreases cs@.len() - i,
    {
        let c = cs[i];
        proof {
            lemma_split_dots_push(s@.subrange(0, i as int), c);
            assert(s@.subrange(0, i + 1) =~= s@.subrange(0, i as int).push(s@[i as int]));
        }
        if c == '.' {
            let ghost old_parts = parts.deep_view();
            let ghost old_current = current@;
            let part = string_from_chars(current.as_slice());
            parts.push(part);
            current = Vec::new();
            i += 1;
            proof {
                assert(parts.deep_view() =~= old_parts.push(old_current));
                lemma_join_dots_step(old_parts, old_current);
                assert(join_dots(parts.deep_view().push(current@)) =~= s@.subrange(0, i as int));
                assert(parts.deep_view().push(current@) =~~= split_dots_spec(
                    s@.subrange(0, i as int),
                ));
            }
        } else {
            let ghost old_current = current@;
            current.push(c);
            i += 1;
            proof {
                assert(current@ =~= old_current.push(c));
                lemma_join_dots_last(parts.deep_view(), old_current, c);
                assert(join_dots(parts.deep_view().push(current@)) =~= s@.subrange(0, i as int));
                assert(parts.deep_view().push(current@) =~~= split_dots_spec(
                    s@.subrange(0, i as int),
                ));
            }
        }
    }
    let last = string_from_chars(current.as_slice());
    let ghost old_parts = parts.deep_view();
    parts.push(last);
    proof {
        assert(parts.deep_view() =~= old_parts.push(current@));
        assert(s@.subrange(0, s@.len() as int) =~= s@);
    }
    parts
}

/// Appending an empty part after closing the previous one with a dot keeps
/// the joined form, extended by that dot.
proof fn lemma_join_dots_step(parts: Seq<Seq<char>>, last: Seq<char>)
    ensures
        join_dots(parts.push(last).push(Seq::empty())) =~= join_dots(parts.push(last)) + seq!['.'],
    decreases parts.len(),
{
    reveal_with_fuel(join_dots, 3);
    if parts.len() == 0 {
        assert(parts.push(last).push(Seq::empty()).drop_first() =~= seq![
            Seq::<char>::empty(),
        ]);
        assert(parts.push(last) =~= seq![last]);
    } else {
        let tail = parts.drop_first();
        lemma_join_dots_step(tail, last);
        assert(parts.push(last).push(Seq::empty()).drop_first() =~= tail.push(last).push(
            Seq::empty(),
        ));
        assert(parts.push(last).drop_first() =~= tail.push(last));
    }
}

/// Extending the final part by one character extends the joined form by that
/// character.
proof fn lemma_join_dots_last(parts: Seq<Seq<char>>, last: Seq<char>, c: char)
    ensures
        join_dots(parts.push(last.push(c))) =~= join_dots(parts.push(last)).push(c),
    decreases parts.len(),
{
    if parts.len() == 0 {
        assert(parts.push(last.push(c)) =~= seq![last.push(c)]);
        assert(parts.push(last) =~= seq![last]);
        assert(last.push(c) =~= last + seq![c]);
    } else {
        let tail = parts.drop_first();
        lemma_join_dots_last(tail, last, c);
        assert(parts.push(last.push(c)).drop_first() =~= tail.push(last.push(c)));
        assert(parts.push(last).drop_first() =~= tail.push(last));
    }
}

/// The dot-joined form of the parts, as a string.
pub fn join_with_dots(parts: &Vec<String>) -> (r: String)
    ensures
        r@ == join_dots(parts.deep_view()),
{
    let mut s = String::new();
    let mut i: usize = 0;
    while i < parts.len()
        invariant
            i <= parts@.len(),
            s@ == join_dots(parts.deep_view().subrange(0, i as int)) + (
            if i > 0 && i < parts@.len() {
                seq!['.']
            } else {
                Seq::<char>::empty()
            }),
        decreases parts@.len() - i,
    {
        s.append(parts[i].as_str());
        i += 1;
        if i < parts.len() {
            push_char(&mut s, '.');
        }
        proof {
            lemma_join_dots_append(parts.deep_view(), i as int);
            if i < parts@.len() {
                assert(s@ =~= join_dots(parts.deep_view().subrange(0, i as int)) + seq!['.']);
            } else {
                assert(s@ =~= join_dots(parts.deep_view().subrange(0, i as int)));
            }
        }
    }
    proof {
        if parts@.len() == 0 {
            assert(s@ =~= join_dots(parts.deep_view()));
        } else {
            assert(parts.deep_view().subrange(0, parts@.len() as int) =~= parts.deep_view());
        }
    }
    s
}

/// The joined form of one more part is the joined form so far, a dot when a
/// part precedes, and the part.
proof fn lemma_join_dots_append(parts: Seq<Seq<char>>, i: int)
    requires
        0 < i <= parts.len(),
    ensures
        join_dots(parts.subrange(0, i)) =~= if i == 1 {
            parts[0]
        } else {
            join_dots(parts.subrange(0, i - 1)) + seq!['.'] + parts[i - 1]
        },
    decreases i,
{
    if i == 1 {
        assert(parts.subrange(0, 1) =~= seq![parts[0]]);
    } else {
        lemma_join_dots_append(parts.drop_first(), i - 1);
        assert(parts.subrange(0, i).drop_first() =~= parts.drop_first().subrange(0, i - 1));
        assert(parts.subrange(0, i - 1).drop_first() =~= parts.drop_first().subrange(0, i - 2));
        if i == 2 {
            assert(parts.subrange(0, 2) =~= seq![parts[0], parts[1]]);
            assert(parts.subrange(0, 1) =~= seq![parts[0]]);
        }
    }
}

} // verus!
