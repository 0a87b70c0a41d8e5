//! Simplifying a path: the parts between its slashes are walked in order,
//! one that names the place itself is passed over, one that names the place
//! above takes the last part back, and what is left is put together again.

use vstd::prelude::*;
use vstd::string::{StrSliceExecFns, StringExecFns};

verus! {

/// What `str::trim` makes of a text: the text without the whitespace at its
/// two ends, where whitespace is what Unicode calls so.
pub uninterp spec fn trimmed(s: Seq<char>) -> Seq<char>;

/// `str::trim`: what it returns depends on the text alone. It is named
/// here, not spelled out.
#[verifier::external_body]
fn trim<'a>(item: &'a str) -> (t: &'a str)
    ensures
        t@ == trimmed(item@),
{
    item.trim()
}

/// The parts of `s` between its slashes, in order. A text without a slash
/// is one part, and so is the empty text; a slash ends a part and starts
/// the next, which is empty until a character other than a slash follows.
pub open spec fn split(s: Seq<char>) -> Seq<Seq<char>>
    decreases s.len(),
{
    if s.len() == 0 {
        seq![Seq::empty()]
    } else if s.last() == '/' {
        split(s.drop_last()).push(Seq::empty())
    } else {
        let before = split(s.drop_last());
        before.drop_last().push(before.last().push(s.last()))
    }
}

/// What a part does to the parts kept so far, given the part as `str::trim`
/// leaves it. Trimmed to nothing or to one dot, it changes nothing. Trimmed
/// to two or three dots, it takes the last kept part back, where there is
/// one. Any other part is kept, untrimmed.
pub open spec fn placed(kept: Seq<Seq<char>>, part: Seq<char>, trimmed: Seq<char>) -> Seq<
    Seq<char>,
> {
    if trimmed == Seq::<char>::empty() || trimmed == seq!['.'] {
        kept
    } else if trimmed == seq!['.', '.'] || trimmed == seq!['.', '.', '.'] {
        if kept.len() > 0 {
            kept.drop_last()
        } else {
            kept
        }
    } else {
        kept.push(part)
    }
}

/// The parts that are kept once `parts` have been walked, first to last.
pub open spec fn walked(parts: Seq<Seq<char>>) -> Seq<Seq<char>>
    decreases parts.len(),
{
    if parts.len() == 0 {
        Seq::empty()
    } else {
        placed(walked(parts.drop_last()), parts.last(), trimmed(parts.last()))
    }
}

/// The parts with one slash between each two.
pub open spec fn joined(parts: Seq<Seq<char>>) -> Seq<char>
    decreases parts.len(),
{
    if parts.len() == 0 {
        Seq::empty()
    } else if parts.len() == 1 {
        parts[0]
    } else {
        joined(parts.drop_last()) + seq!['/'] + parts.last()
    }
}

/// The simplified path: a slash, then the kept parts of `path` with a slash
/// between each two.
pub open spec fn simplified(path: Seq<char>) -> Seq<char> {
    seq!['/'] + joined(walked(split(path)))
}

/// The texts of `items`.
pub open spec fn texts(items: Seq<&str>) -> Seq<Seq<char>> {
    items.map_values(|item: &str| item@)
}

/// Whether `text` is made of dots alone, and of between one and three.
fn dots(text: &str) -> (count: Option<usize>)
    ensures
        match count {
            Some(n) => 1 <= n <= 3 && text@ == Seq::new(n as nat, |i: int| '.'),
            None => text@ != seq!['.'] && text@ != seq!['.', '.'] && text@ != seq!['.', '.', '.'],
        },
{
    let len: usize = text.unicode_len();
    if len == 0 || len > 3 {
        return None;
    }
    let mut i: usize = 0;
    while i < len
        invariant
            1 <= len <= 3,
            len == text@.len(),
            i <= len,
            forall|j: int| 0 <= j < i ==> text@[j] == '.',
        decreases len - i,
    {
        if text.get_char(i) != '.' {
            return None;
        }
        i = i + 1;
    }
    Some(len)
}

/// Lets `item` do to the kept `items` what its trimmed form `trimmed` asks
/// for: nothing, take the last one back, or keep `item`.
pub fn place<'a>(items: &mut Vec<&'a str>, item: &'a str, trimmed: &str)
    ensures
        texts(final(items)@) == placed(texts(old(items)@), item@, trimmed@),
{
    let ghost kept = texts(items@);
    if trimmed.unicode_len() == 0 {
        assert(trimmed@ =~= Seq::<char>::empty());
        return ;
    }
    match dots(trimmed) {
        Some(n) => {
            if n == 1 {
                assert(trimmed@ =~= seq!['.']);
            } else {
                assert(n == 2 ==> trimmed@ =~= seq!['.', '.']);
                assert(n == 3 ==> trimmed@ =~= seq!['.', '.', '.']);
                items.pop();
                assert(kept.len() > 0 ==> texts(items@) =~= kept.drop_last());
            }
        },
        None => {
            items.push(item);
            assert(texts(items@) =~= kept.push(item@));
        },
    }
}

/// Simplifies `path`. Its parts are what stands between its slashes. Each
/// is looked at as `str::trim` leaves it: an empty one or a single dot is
/// passed over, two or three dots take the last kept part back, and any other
/// part is kept as it stands. The result is a slash followed by the kept
/// parts with a slash between each two.
pub fn simplify(path: &str) -> (result: String)
    ensures
        result@ == simplified(path@),
{
    let len: usize = path.unicode_len();
    let mut items: Vec<&str> = Vec::new();
    let ghost mut parts: Seq<Seq<char>> = Seq::empty();
    let mut start: usize = 0;
    let mut i: usize = 0;
    assert(path@.take(0) =~= Seq::<char>::empty());
    while i < len
        invariant
            len == path@.len(),
            start <= i <= len,
            split(path@.take(i as int)) == parts.push(path@.subrange(start as int, i as int)),
            texts(items@) == walked(parts),
        decreases len - i,
    {
        let ghost seen = path@.take(i as int);
        let ghost next = path@.take(i + 1);
        assert(next.drop_last() =~= seen);
        if path.get_char(i) == '/' {
            let item = path.substring_char(start, i);
            place(&mut items, item, trim(item));
            proof {
                let earlier = parts;
                parts = parts.push(item@);
                assert(parts.drop_last() =~= earlier);
                assert(path@.subrange(i + 1, i + 1) =~= Seq::<char>::empty());
            }
            start = i + 1;
        } else {
            assert(path@.subrange(start as int, i + 1) =~= path@.subrange(
                start as int,
                i as int,
            ).push(path@[i as int]));
            assert(split(seen).drop_last() =~= parts);
        }
        i = i + 1;
    }
    let item = path.substring_char(start, len);
    place(&mut items, item, trim(item));
    proof {
        assert(path@.take(len as int) =~= path@);
        let all = parts.push(item@);
        assert(all.drop_last() =~= parts);
    }
    let mut result = String::from_str("/");
    proof {
        reveal_strlit("/");
    }
    let mut k: usize = 0;
    while k < items.len()
        invariant
            k <= items@.len(),
            "/"@ == seq!['/'],
            result@ == seq!['/'] + joined(texts(items@).take(k as int)),
        decreases items@.len() - k,
    {
        let ghost done = texts(items@).take(k as int);
        let ghost more = texts(items@).take(k + 1);
        assert(more.drop_last() =~= done);
        if k > 0 {
            result.append("/");
        }
        result.append(items[k]);
        assert(result@ =~= seq!['/'] + joined(more));
        k = k + 1;
    }
    assert(texts(items@).take(k as int) =~= texts(items@));
    result
}

} // verus!
