//! Query parameters of a URL.

use vstd::prelude::*;

use crate::text::texts;

verus! {

/// The index of the first `c` in `s`, or the length of `s` if there is none.
pub open spec fn position(s: Seq<char>, c: char) -> int
    decreases s.len(),
{
    if s.len() == 0 || s[0] == c {
        0
    } else {
        1 + position(s.drop_first(), c)
    }
}

/// What stands before the first `c`: all of `s` if there is none.
pub open spec fn before(s: Seq<char>, c: char) -> Seq<char> {
    s.take(position(s, c))
}

/// What stands after the first `c`: nothing if there is none.
pub open spec fn after(s: Seq<char>, c: char) -> Seq<char> {
    if position(s, c) < s.len() {
        s.skip(position(s, c) + 1)
    } else {
        Seq::empty()
    }
}

/// The pieces of `s` between occurrences of `sep`.
pub open spec fn pieces(s: Seq<char>, sep: char) -> Seq<Seq<char>>
    decreases s.len(),
{
    if 0 <= position(s, sep) < s.len() {
        seq![before(s, sep)] + pieces(s.skip(position(s, sep) + 1), sep)
    } else {
        seq![s]
    }
}

/// A key and its value.
pub type Pair = (Seq<char>, Seq<char>);

/// A key with its new value, or with none if its pair is to go.
pub type Update = (Seq<char>, Option<Seq<char>>);

/// The key and the value that one piece of a query stands for. Without an
/// equals sign the value is empty.
pub open spec fn pair_of(piece: Seq<char>) -> Pair {
    (before(piece, '='), after(piece, '='))
}

/// The pairs of the pieces that are not empty.
pub open spec fn pairs_of(pieces: Seq<Seq<char>>) -> Seq<Pair> {
    pieces.filter(|piece: Seq<char>| piece.len() > 0).map_values(
        |piece: Seq<char>| pair_of(piece),
    )
}

/// The pairs of a query, in order.
pub open spec fn query_pairs(query: Seq<char>) -> Seq<Pair> {
    pairs_of(pieces(query, '&'))
}

/// The index of the first pair with this key, or the number of pairs.
pub open spec fn key_position(pairs: Seq<Pair>, key: Seq<char>) -> int
    decreases pairs.len(),
{
    if pairs.len() == 0 || pairs[0].0 == key {
        0
    } else {
        1 + key_position(pairs.drop_first(), key)
    }
}

/// `pairs` after one update: the first pair with the key gets the new value or
/// goes; where there is none, a pair is added at the end.
pub open spec fn updated(pairs: Seq<Pair>, update: Update) -> Seq<Pair> {
    let index = key_position(pairs, update.0);
    if index < pairs.len() {
        match update.1 {
            Some(value) => pairs.update(index, (pairs[index].0, value)),
            None => pairs.remove(index),
        }
    } else {
        match update.1 {
            Some(value) => pairs.push((update.0, value)),
            None => pairs,
        }
    }
}

/// `pairs` after all updates, in order.
pub open spec fn all_updated(pairs: Seq<Pair>, updates: Seq<Update>) -> Seq<Pair>
    decreases updates.len(),
{
    if updates.len() == 0 {
        pairs
    } else {
        updated(all_updated(pairs, updates.drop_last()), updates.last())
    }
}

/// The pairs as the text of a query.
pub open spec fn query_text(pairs: Seq<Pair>) -> Seq<char>
    decreases pairs.len(),
{
    if pairs.len() == 0 {
        Seq::empty()
    } else if pairs.len() == 1 {
        pairs[0].0 + seq!['='] + pairs[0].1
    } else {
        query_text(pairs.drop_last()) + seq!['&'] + pairs.last().0 + seq!['='] + pairs.last().1
    }
}

/// A path with a query. Without pairs there is no question mark.
pub open spec fn url_text(path: Seq<char>, pairs: Seq<Pair>) -> Seq<char> {
    if pairs.len() == 0 {
        path
    } else {
        path + seq!['?'] + query_text(pairs)
    }
}

/// What stands before the query of a URL.
pub open spec fn url_path(url: Seq<char>) -> Seq<char> {
    before(url, '?')
}

/// The pairs in the query of a URL.
pub open spec fn url_pairs(url: Seq<char>) -> Seq<Pair> {
    query_pairs(after(url, '?'))
}

/// `url` with its query updated.
pub open spec fn upserted(url: Seq<char>, updates: Seq<Update>) -> Seq<char> {
    url_text(url_path(url), all_updated(url_pairs(url), updates))
}

/// The view of an update.
pub open spec fn update_view(update: (&str, Option<&str>)) -> Update {
    (
        update.0@,
        match update.1 {
            Some(value) => Some(value@),
            None => None,
        },
    )
}

/// The view of a list of updates.
pub open spec fn update_views(updates: Seq<(&str, Option<&str>)>) -> Seq<Update> {
    updates.map_values(|update: (&str, Option<&str>)| update_view(update))
}

/// The view of a list of pairs.
pub open spec fn pair_views(pairs: Seq<(String, String)>) -> Seq<Pair> {
    pairs.map_values(|pair: (String, String)| (pair.0@, pair.1@))
}

/// `position` is determined by the first occurrence.
pub proof fn lemma_position(s: Seq<char>, c: char, index: int)
    requires
        0 <= index <= s.len(),
        forall|i: int| 0 <= i < index ==> s[i] != c,
        index < s.len() ==> s[index] == c,
    ensures
        position(s, c) == index,
    decreases s.len(),
{
    if s.len() > 0 && s[0] != c {
        assert forall|i: int| 0 <= i < index - 1 implies s.drop_first()[i] != c by {
            assert(s.drop_first()[i] == s[i + 1]);
        }
        lemma_position(s.drop_first(), c, index - 1);
    }
}

/// What `position` finds.
pub proof fn lemma_position_found(s: Seq<char>, c: char)
    ensures
        0 <= position(s, c) <= s.len(),
        forall|i: int| 0 <= i < position(s, c) ==> s[i] != c,
        position(s, c) < s.len() ==> s[position(s, c)] == c,
    decreases s.len(),
{
    if s.len() > 0 && s[0] != c {
        lemma_position_found(s.drop_first(), c);
        assert forall|i: int| 0 <= i < position(s, c) implies s[i] != c by {
            if i > 0 {
                assert(s.drop_first()[i - 1] == s[i]);
            }
        }
    }
}

/// A first piece that is closed by a separator comes off the front.
pub proof fn lemma_pieces_step(piece: Seq<char>, rest: Seq<char>, sep: char)
    requires
        !piece.contains(sep),
    ensures
        pieces(piece + seq![sep] + rest, sep) == seq![piece] + pieces(rest, sep),
{
    let s = piece + seq![sep] + rest;
    assert forall|i: int| 0 <= i < piece.len() implies s[i] != sep by {
        assert(s[i] == piece[i]);
    }
    lemma_position(s, sep, piece.len() as int);
    assert(before(s, sep) =~= piece);
    assert(s.skip(position(s, sep) + 1) =~= rest);
}

/// Text without a separator is one piece.
pub proof fn lemma_pieces_one(s: Seq<char>, sep: char)
    requires
        !s.contains(sep),
    ensures
        pieces(s, sep) == seq![s],
{
    lemma_position(s, sep, s.len() as int);
}

/// Splits `s` at the first `sep`.
fn split_first(s: &str, sep: char) -> (parts: (String, String))
    ensures
        parts.0@ == before(s@, sep),
        parts.1@ == after(s@, sep),
{
    let mut head: String = String::new();
    let mut tail: String = String::new();
    let mut found: bool = false;
    proof {
        lemma_position_found(s@, sep);
    }
    for c in it: s.chars()
        invariant
            it.seq() == s@,
            0 <= position(s@, sep) <= s@.len(),
            position(s@, sep) < s@.len() ==> s@[position(s@, sep)] == sep,
            forall|i: int| 0 <= i < position(s@, sep) ==> s@[i] != sep,
            found == (position(s@, sep) < it.index()),
            head@ == s@.take(
                if found {
                    position(s@, sep)
                } else {
                    it.index() as int
                },
            ),
            tail@ == (if found {
                s@.subrange(position(s@, sep) + 1, it.index() as int)
            } else {
                Seq::empty()
            }),
    {
        if found {
            tail.push(c);
        } else if c == sep {
            found = true;
        } else {
            head.push(c);
        }
    }
    (head, tail)
}

/// Splits `s` at every `sep`.
fn split_pieces(s: &str, sep: char) -> (list: Vec<String>)
    ensures
        texts(list@) == pieces(s@, sep),
{
    let mut list: Vec<String> = Vec::new();
    let mut piece: String = String::new();
    assert(s@ =~= piece@ + s@.skip(0));
    assert(texts(list@) + pieces(s@, sep) =~= pieces(s@, sep));
    for c in it: s.chars()
        invariant
            it.seq() == s@,
            !piece@.contains(sep),
            texts(list@) + pieces(piece@ + s@.skip(it.index() as int), sep) == pieces(s@, sep),
    {
        let ghost rest = s@.skip(it.index() as int);
        let ghost old_list = texts(list@);
        let ghost old_piece = piece@;
        if c == sep {
            proof {
                lemma_pieces_step(piece@, rest.drop_first(), sep);
                assert(old_piece + rest =~= old_piece + seq![sep] + rest.drop_first());
            }
            list.push(piece);
            assert(texts(list@) =~= old_list + seq![old_piece]);
            piece = String::new();
            assert(piece@ + s@.skip(it.index() + 1) =~= rest.drop_first());
            assert(old_list + seq![old_piece] + pieces(rest.drop_first(), sep) =~= old_list + (
            seq![old_piece] + pieces(rest.drop_first(), sep)));
        } else {
            piece.push(c);
            assert(piece@ + s@.skip(it.index() + 1) =~= old_piece + rest);
            assert(!piece@.contains(sep)) by {
                assert forall|i: int| 0 <= i < piece@.len() implies piece@[i] != sep by {
                    if i < old_piece.len() {
                        assert(old_piece.contains(old_piece[i]));
                    }
                }
            }
        }
    }
    assert(piece@ + s@.skip(s@.len() as int) =~= piece@);
    proof {
        lemma_pieces_one(piece@, sep);
    }
    let ghost old_list = texts(list@);
    let ghost last = piece@;
    list.push(piece);
    assert(texts(list@) =~= old_list + seq![last]);
    list
}

/// The pairs of one more piece.
pub proof fn lemma_pairs_of_push(list: Seq<Seq<char>>, piece: Seq<char>)
    ensures
        pairs_of(list.push(piece)) == if piece.len() > 0 {
            pairs_of(list).push(pair_of(piece))
        } else {
            pairs_of(list)
        },
{
    reveal(Seq::filter);
    assert(list.push(piece).drop_last() =~= list);
    assert(pairs_of(list.push(piece)) =~= if piece.len() > 0 {
        pairs_of(list).push(pair_of(piece))
    } else {
        pairs_of(list)
    });
}

/// Reads the pairs of a query.
pub fn parse_query(query: &str) -> (pairs: Vec<(String, String)>)
    ensures
        pair_views(pairs@) == query_pairs(query@),
{
    let list: Vec<String> = split_pieces(query, '&');
    let mut pairs: Vec<(String, String)> = Vec::new();
    let mut i: usize = 0;
    reveal(Seq::filter);
    assert(pair_views(pairs@) =~= pairs_of(texts(list@).take(0)));
    while i < list.len()
        invariant
            i <= list@.len(),
            pair_views(pairs@) == pairs_of(texts(list@).take(i as int)),
        decreases list@.len() - i,
    {
        let ghost so_far = texts(list@).take(i as int);
        let ghost old_pairs = pair_views(pairs@);
        proof {
            lemma_pairs_of_push(so_far, list@[i as int]@);
            assert(texts(list@).take(i + 1) =~= so_far.push(list@[i as int]@));
        }
        if !list[i].as_str().is_empty() {
            let pair: (String, String) = split_first(list[i].as_str(), '=');
            pairs.push(pair);
            assert(pair_views(pairs@) =~= old_pairs.push(pair_of(list@[i as int]@)));
        }
        i = i + 1;
    }
    assert(texts(list@).take(i as int) =~= texts(list@));
    pairs
}

/// What `key_position` finds.
pub proof fn lemma_key_position_found(pairs: Seq<Pair>, key: Seq<char>)
    ensures
        0 <= key_position(pairs, key) <= pairs.len(),
        forall|i: int| 0 <= i < key_position(pairs, key) ==> (#[trigger] pairs[i]).0 != key,
        key_position(pairs, key) < pairs.len() ==> pairs[key_position(pairs, key)].0 == key,
    decreases pairs.len(),
{
    if pairs.len() > 0 && pairs[0].0 != key {
        lemma_key_position_found(pairs.drop_first(), key);
        assert forall|i: int| 0 <= i < key_position(pairs, key) implies (
        #[trigger] pairs[i]).0 != key by {
            if i > 0 {
                assert(pairs.drop_first()[i - 1] == pairs[i]);
            }
        }
    }
}

/// `key_position` is determined by the first pair with the key.
pub proof fn lemma_key_position(pairs: Seq<Pair>, key: Seq<char>, index: int)
    requires
        0 <= index <= pairs.len(),
        forall|i: int| 0 <= i < index ==> (#[trigger] pairs[i]).0 != key,
        index < pairs.len() ==> pairs[index].0 == key,
    ensures
        key_position(pairs, key) == index,
{
    lemma_key_position_found(pairs, key);
    let found = key_position(pairs, key);
    if found < index {
        assert(pairs[found].0 != key);
    }
    if index < found {
        assert(pairs[index].0 != key);
    }
}

/// Finds the first pair with the key.
fn find_key(pairs: &Vec<(String, String)>, key: &str) -> (index: usize)
    ensures
        index == key_position(pair_views(pairs@), key@),
        index <= pairs@.len(),
{
    let wanted: String = key.to_owned();
    let mut i: usize = 0;
    while i < pairs.len()
        invariant
            i <= pairs@.len(),
            wanted@ == key@,
            forall|j: int|
                0 <= j < i ==> (#[trigger] pair_views(pairs@)[j]).0 != key@,
        decreases pairs@.len() - i,
    {
        if pairs[i].0 == wanted {
            proof {
                assert(pair_views(pairs@)[i as int].0 == key@);
                lemma_key_position(pair_views(pairs@), key@, i as int);
            }
            return i;
        }
        i = i + 1;
    }
    proof {
        lemma_key_position(pair_views(pairs@), key@, i as int);
    }
    i
}

/// Applies one update to the pairs.
fn apply_update(pairs: &mut Vec<(String, String)>, key: &str, value: Option<&str>)
    ensures
        pair_views(final(pairs)@) == updated(
            pair_views(old(pairs)@),
            update_view((key, value)),
        ),
{
    let index: usize = find_key(pairs, key);
    let ghost before = pair_views(pairs@);
    if index < pairs.len() {
        match value {
            Some(value) => {
                let kept: String = pairs[index].0.clone();
                pairs.set(index, (kept, value.to_owned()));
            },
            None => {
                let _ = pairs.remove(index);
            },
        }
    } else if let Some(value) = value {
        pairs.push((key.to_owned(), value.to_owned()));
    }
    assert(pair_views(pairs@) =~= updated(before, update_view((key, value))));
}

/// Writes a path and the pairs of its query as a URL.
fn write_url(path: &str, pairs: &Vec<(String, String)>) -> (url: String)
    ensures
        url@ == url_text(path@, pair_views(pairs@)),
{
    let mut url: String = path.to_owned();
    let ghost views = pair_views(pairs@);
    let mut i: usize = 0;
    while i < pairs.len()
        invariant
            i <= pairs@.len(),
            views == pair_views(pairs@),
            url@ == url_text(path@, views.take(i as int)),
        decreases pairs@.len() - i,
    {
        let ghost so_far = url@;
        let ghost next = views.take(i + 1);
        if i == 0 {
            url.push('?');
        } else {
            url.push('&');
        }
        url.append(pairs[i].0.as_str());
        url.push('=');
        url.append(pairs[i].1.as_str());
        proof {
            assert(next.drop_last() =~= views.take(i as int));
            assert(next.last() == views[i as int]);
            assert(url@ =~= url_text(path@, next));
        }
        i = i + 1;
    }
    assert(views.take(i as int) =~= views);
    url
}

/// Sets query parameters of a URL. For each update the first parameter with
/// its key gets the new value, or goes if there is none; where no parameter has
/// the key, one is added at the end. Empty pieces of the old query go, and a
/// parameter without an equals sign gets one.
pub fn upsert_query_params(url: &str, updates: &[(&str, Option<&str>)]) -> (res: String)
    ensures
        res@ == upserted(url@, update_views(updates@)),
{
    let (path, query): (String, String) = split_first(url, '?');
    let mut pairs: Vec<(String, String)> = parse_query(query.as_str());
    let ghost views = update_views(updates@);
    let mut i: usize = 0;
    while i < updates.len()
        invariant
            i <= updates@.len(),
            views == update_views(updates@),
            pair_views(pairs@) == all_updated(url_pairs(url@), views.take(i as int)),
        decreases updates@.len() - i,
    {
        let update: (&str, Option<&str>) = updates[i];
        apply_update(&mut pairs, update.0, update.1);
        proof {
            assert(views.take(i + 1).drop_last() =~= views.take(i as int));
            assert(views.take(i + 1).last() == update_view(update));
        }
        i = i + 1;
    }
    assert(views.take(i as int) =~= views);
    write_url(path.as_str(), &pairs)
}

} // verus!
