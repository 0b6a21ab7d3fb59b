//! Character sequences: searching, splitting and joining.
//!
//! Every text is modelled by its sequence of characters, the view of `str` and
//! `String`. Positions and lengths count characters, not bytes.

use vstd::prelude::*;

verus! {

/// `pat` stands in `s` at position `i`.
pub open spec fn occurs_at(s: Seq<char>, pat: Seq<char>, i: int) -> bool {
    &&& 0 <= i
    &&& i + pat.len() <= s.len()
    &&& s.subrange(i, i + pat.len()) == pat
}

/// `pat` stands in `s` at position `i` and nowhere before it.
pub open spec fn is_first_occurrence(s: Seq<char>, pat: Seq<char>, i: int) -> bool {
    &&& occurs_at(s, pat, i)
    &&& forall|j: int| 0 <= j < i ==> !occurs_at(s, pat, j)
}

/// The position of the leftmost occurrence of `pat` in `s`, if there is one.
pub open spec fn first_occurrence(s: Seq<char>, pat: Seq<char>) -> Option<int> {
    if exists|i: int| is_first_occurrence(s, pat, i) {
        Some(choose|i: int| is_first_occurrence(s, pat, i))
    } else {
        None
    }
}

/// The pieces of `s` between the occurrences of `sep`, taken leftmost first and
/// without overlap. There is always at least one piece; a text without the
/// separator is its own single piece, and so is any text when `sep` is empty.
pub open spec fn split(s: Seq<char>, sep: Seq<char>) -> Seq<Seq<char>>
    decreases s.len(),
{
    if sep.len() == 0 {
        seq![s]
    } else {
        match first_occurrence(s, sep) {
            Some(i) => seq![s.take(i)] + split(s.skip(i + sep.len()), sep),
            None => seq![s],
        }
    }
}

/// The pieces written one after another with `sep` between neighbours.
pub open spec fn join(parts: Seq<Seq<char>>, sep: Seq<char>) -> Seq<char>
    decreases parts.len(),
{
    if parts.len() == 0 {
        Seq::empty()
    } else if parts.len() == 1 {
        parts[0]
    } else {
        join(parts.drop_last(), sep) + sep + parts.last()
    }
}

/// A leftmost occurrence is the first occurrence.
pub proof fn lemma_first_occurrence_is(s: Seq<char>, pat: Seq<char>, i: int)
    requires
        is_first_occurrence(s, pat, i),
    ensures
        first_occurrence(s, pat) == Some(i),
{
    let k = choose|k: int| is_first_occurrence(s, pat, k);
    assert(is_first_occurrence(s, pat, k));
    if k < i {
        assert(!occurs_at(s, pat, k));
    }
    if i < k {
        assert(!occurs_at(s, pat, i));
    }
}

/// Where `pat` occurs somewhere, it has a first occurrence, at or before that place.
pub proof fn lemma_occurrence_has_first(s: Seq<char>, pat: Seq<char>, i: int)
    requires
        occurs_at(s, pat, i),
    ensures
        first_occurrence(s, pat) matches Some(k) && k <= i && is_first_occurrence(s, pat, k),
    decreases i,
{
    if exists|j: int| 0 <= j < i && occurs_at(s, pat, j) {
        let j = choose|j: int| 0 <= j < i && occurs_at(s, pat, j);
        lemma_occurrence_has_first(s, pat, j);
    } else {
        assert(is_first_occurrence(s, pat, i));
        lemma_first_occurrence_is(s, pat, i);
    }
}

/// `first_occurrence` is `None` exactly when `pat` occurs nowhere in `s`.
pub proof fn lemma_first_occurrence_none(s: Seq<char>, pat: Seq<char>)
    ensures
        first_occurrence(s, pat) is None <==> forall|i: int| !occurs_at(s, pat, i),
{
    if first_occurrence(s, pat) is None {
        assert forall|i: int| !occurs_at(s, pat, i) by {
            if occurs_at(s, pat, i) {
                lemma_occurrence_has_first(s, pat, i);
            }
        }
    }
}

/// A text always splits into at least one piece.
pub proof fn lemma_split_nonempty(s: Seq<char>, sep: Seq<char>)
    ensures
        split(s, sep).len() >= 1,
    decreases s.len(),
{
    if sep.len() > 0 {
        match first_occurrence(s, sep) {
            Some(i) => {
                lemma_split_nonempty(s.skip(i + sep.len()), sep);
            },
            None => {},
        }
    }
}

/// Joining the pieces of a split with the separator gives the text back.
pub proof fn lemma_join_split(s: Seq<char>, sep: Seq<char>)
    ensures
        join(split(s, sep), sep) == s,
    decreases s.len(),
{
    if sep.len() > 0 {
        match first_occurrence(s, sep) {
            Some(i) => {
                let rest = s.skip(i + sep.len());
                lemma_join_split(rest, sep);
                lemma_join_prepend(s.take(i), split(rest, sep), sep);
                lemma_split_nonempty(rest, sep);
                assert(s.subrange(i, i + sep.len()) == sep);
                assert(s.take(i) + sep + rest =~= s);
            },
            None => {},
        }
    }
}

/// Joining with one more piece in front.
pub proof fn lemma_join_prepend(first: Seq<char>, parts: Seq<Seq<char>>, sep: Seq<char>)
    requires
        parts.len() >= 1,
    ensures
        join(seq![first] + parts, sep) == first + sep + join(parts, sep),
    decreases parts.len(),
{
    let all = seq![first] + parts;
    if parts.len() == 1 {
        assert(all.drop_last() =~= seq![first]);
        assert(all.last() == parts[0]);
        assert(join(seq![first], sep) == first);
    } else {
        lemma_join_prepend(first, parts.drop_last(), sep);
        assert(all.drop_last() =~= seq![first] + parts.drop_last());
        assert(all.last() == parts.last());
        assert(first + sep + join(parts.drop_last(), sep) + sep + parts.last() =~= first + sep + (
        join(parts.drop_last(), sep) + sep + parts.last()));
    }
}

/// The characters of `s`, in order.
pub fn chars_of(s: &str) -> (v: Vec<char>)
    ensures
        v@ == s@,
{
    let mut v: Vec<char> = Vec::new();
    for c in it: s.chars()
        invariant
            v@ == it.seq().take(it.index()),
            it.seq() == s@,
    {
        v.push(c);
    }
    v
}

/// The part of `s` from position `from` up to, not including, position `to`.
fn piece(s: &str, from: usize, to: usize) -> (r: String)
    requires
        from <= to <= s@.len(),
    ensures
        r@ == s@.subrange(from as int, to as int),
{
    s.substring_char(from, to).to_owned()
}

/// Tells whether `pat` stands in `s` at position `i`.
pub fn matches_at(s: &Vec<char>, pat: &Vec<char>, i: usize) -> (b: bool)
    ensures
        b == occurs_at(s@, pat@, i as int),
{
    if pat.len() > s.len() || i > s.len() - pat.len() {
        return false;
    }
    let mut k: usize = 0;
    while k < pat.len()
        invariant
            k <= pat.len(),
            i + pat.len() <= s.len(),
            forall|j: int| 0 <= j < k ==> s@[i + j] == pat@[j],
        decreases pat.len() - k,
    {
        if s[i + k] != pat[k] {
            assert(s@.subrange(i as int, i + pat.len())[k as int] == s@[i + k]);
            return false;
        }
        k += 1;
    }
    assert(s@.subrange(i as int, i + pat.len()) =~= pat@);
    true
}

/// The first position at or after `from` where `pat` stands in `s`.
pub fn find_from(s: &Vec<char>, pat: &Vec<char>, from: usize) -> (r: Option<usize>)
    ensures
        match r {
            Some(k) => from <= k && occurs_at(s@, pat@, k as int) && forall|j: int|
                from <= j < k ==> !occurs_at(s@, pat@, j),
            None => forall|j: int| from <= j ==> !occurs_at(s@, pat@, j),
        },
{
    if pat.len() > s.len() {
        return None;
    }
    let last: usize = s.len() - pat.len();
    let mut k: usize = from;
    while k <= last
        invariant
            from <= k,
            last == s.len() - pat.len(),
            forall|j: int| from <= j < k ==> !occurs_at(s@, pat@, j),
        decreases last + 1 - k,
    {
        if matches_at(s, pat, k) {
            return Some(k);
        }
        if k == last {
            return None;
        }
        k += 1;
    }
    None
}

/// Tells whether `s` begins with `prefix`.
pub fn starts_with(s: &str, prefix: &str) -> (b: bool)
    ensures
        b == prefix@.is_prefix_of(s@),
{
    let text = chars_of(s);
    let pat = chars_of(prefix);
    let b = matches_at(&text, &pat, 0);
    proof {
        if b {
            assert forall|i: int| 0 <= i < prefix@.len() implies prefix@[i] == s@[i] by {
                assert(s@.subrange(0, prefix@.len() as int)[i] == s@[i]);
            }
        }
        if prefix@.is_prefix_of(s@) {
            assert(s@.subrange(0, prefix@.len() as int) =~= prefix@);
        }
    }
    b
}

/// Splits `s` at every occurrence of `sep`; see [`split`].
pub fn split_text(s: &str, sep: &str) -> (parts: Vec<String>)
    ensures
        parts.deep_view() == split(s@, sep@),
{
    let text = chars_of(s);
    let pat = chars_of(sep);
    let mut parts: Vec<String> = Vec::new();
    if pat.len() == 0 {
        parts.push(s.to_owned());
        assert(parts.deep_view() =~= seq![s@]);
        return parts;
    }
    let mut start: usize = 0;
    let mut done = false;
    assert(s@.skip(0) =~= s@);
    assert(parts.deep_view() =~= Seq::empty());
    while !done
        invariant
            text@ == s@,
            pat@ == sep@,
            pat.len() > 0,
            start <= text.len(),
            !done ==> split(s@, sep@) == parts.deep_view() + split(s@.skip(start as int), sep@),
            done ==> split(s@, sep@) == parts.deep_view(),
        decreases text.len() - start + (if done { 0int } else { 1int }),
    {
        let ghost rest = s@.skip(start as int);
        let ghost before = parts.deep_view();
        match find_from(&text, &pat, start) {
            Some(k) => {
                let p = piece(s, start, k);
                proof {
                    let i = k - start;
                    assert(rest.subrange(i, i + sep@.len()) =~= s@.subrange(
                        k as int,
                        k + sep@.len(),
                    ));
                    assert forall|j: int| 0 <= j < i implies !occurs_at(rest, sep@, j) by {
                        if occurs_at(rest, sep@, j) {
                            assert(s@.subrange(start + j, start + j + sep@.len()) =~= rest.subrange(
                                j,
                                j + sep@.len(),
                            ));
                            assert(occurs_at(s@, sep@, start + j));
                        }
                    }
                    lemma_first_occurrence_is(rest, sep@, i);
                    assert(rest.take(i) =~= s@.subrange(start as int, k as int));
                    assert(rest.skip(i + sep@.len()) =~= s@.skip(k + sep@.len()));
                }
                parts.push(p);
                start = k + pat.len();
                assert(parts.deep_view() =~= before.push(p@));
                assert(before + (seq![p@] + split(s@.skip(start as int), sep@)) =~= before.push(
                    p@,
                ) + split(s@.skip(start as int), sep@));
            },
            None => {
                let p = piece(s, start, text.len());
                proof {
                    assert forall|j: int| !occurs_at(rest, sep@, j) by {
                        if occurs_at(rest, sep@, j) {
                            assert(s@.subrange(start + j, start + j + sep@.len()) =~= rest.subrange(
                                j,
                                j + sep@.len(),
                            ));
                            assert(occurs_at(s@, sep@, start + j));
                        }
                    }
                    lemma_first_occurrence_none(rest, sep@);
                    assert(rest =~= s@.subrange(start as int, text.len() as int));
                }
                parts.push(p);
                done = true;
                assert(parts.deep_view() =~= before + seq![rest]);
            },
        }
    }
    parts
}

/// Writes the pieces one after another with `sep` between neighbours; see [`join`].
pub fn join_text(parts: &Vec<String>, sep: &str) -> (r: String)
    ensures
        r@ == join(parts.deep_view(), sep@),
{
    let mut r = String::new();
    let mut i: usize = 0;
    assert(parts.deep_view().take(0) =~= Seq::empty());
    while i < parts.len()
        invariant
            i <= parts.len(),
            r@ == join(parts.deep_view().take(i as int), sep@),
        decreases parts.len() - i,
    {
        let ghost before = parts.deep_view().take(i as int);
        let ghost next = parts.deep_view().take(i + 1);
        assert(next.drop_last() =~= before);
        assert(next.last() == parts[i as int]@);
        if i > 0 {
            r.append(sep);
        }
        r.append(parts[i].as_str());
        assert(r@ =~= join(next, sep@));
        i += 1;
    }
    assert(parts.deep_view().take(parts.len() as int) =~= parts.deep_view());
    r
}

} // verus!
