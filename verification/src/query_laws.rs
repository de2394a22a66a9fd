//! What holds of query parameters whatever the URL and the updates are.

use vstd::prelude::*;

use crate::query::{
    after, all_updated, before, key_position, lemma_key_position, lemma_key_position_found,
    lemma_pairs_of_push, lemma_pieces_one, lemma_pieces_step, lemma_position, lemma_position_found,
    pair_of, pair_views, pairs_of, pieces, position, query_pairs, query_text, update_views, updated,
    upserted, url_pairs, url_path, url_text, Pair, Update,
};
use crate::request::{deployment, url_updates, ws_url};
use crate::text::trimmed;
use crate::types::{AsrConfig, OpenAiRealtimeBackend};

verus! {

/// Whether a pair can stand in a query and be told apart there.
pub open spec fn is_clean(pair: Pair) -> bool {
    &&& !pair.0.contains('&')
    &&& !pair.0.contains('=')
    &&& !pair.1.contains('&')
}

/// Whether all pairs can stand in a query and be told apart there.
pub open spec fn all_clean(pairs: Seq<Pair>) -> bool {
    forall|i: int| 0 <= i < pairs.len() ==> is_clean(#[trigger] pairs[i])
}

/// Whether an update, if it sets a value, sets one that can stand in a query.
pub open spec fn is_clean_update(update: Update) -> bool {
    update.1 matches Some(value) ==> is_clean((update.0, value))
}

/// Whether all values that are set can stand in a query.
pub open spec fn clean_updates(updates: Seq<Update>) -> bool {
    forall|i: int| 0 <= i < updates.len() ==> is_clean_update(#[trigger] updates[i])
}

/// Whether an update sets a value, and one that can stand in a query.
pub open spec fn is_clean_setting(update: Update) -> bool {
    update.1 matches Some(value) && is_clean((update.0, value))
}

/// Whether all updates set values, and such that can stand in a query.
pub open spec fn clean_settings(updates: Seq<Update>) -> bool {
    forall|i: int| 0 <= i < updates.len() ==> is_clean_setting(#[trigger] updates[i])
}

/// The value of the first pair with a key.
pub open spec fn value_of(pairs: Seq<Pair>, key: Seq<char>) -> Option<Seq<char>> {
    if key_position(pairs, key) < pairs.len() {
        Some(pairs[key_position(pairs, key)].1)
    } else {
        None
    }
}

/// What the last update with this key does, if there is one: it sets a value,
/// or takes a pair out.
pub open spec fn last_update(updates: Seq<Update>, key: Seq<char>) -> Option<Option<Seq<char>>>
    decreases updates.len(),
{
    if updates.len() == 0 {
        None
    } else if updates.last().0 == key {
        Some(updates.last().1)
    } else {
        last_update(updates.drop_last(), key)
    }
}

/// One pair as text.
spec fn pair_text(pair: Pair) -> Seq<char> {
    pair.0 + seq!['='] + pair.1
}

/// A clean pair is read back from its text, which is not empty and is one piece.
proof fn lemma_pair_text(pair: Pair)
    requires
        is_clean(pair),
    ensures
        pair_of(pair_text(pair)) == pair,
        pair_text(pair).len() > 0,
        !pair_text(pair).contains('&'),
{
    let s = pair_text(pair);
    assert forall|i: int| 0 <= i < pair.0.len() implies s[i] != '=' by {
        assert(s[i] == pair.0[i]);
        assert(pair.0.contains(pair.0[i]));
    }
    lemma_position(s, '=', pair.0.len() as int);
    assert(before(s, '=') =~= pair.0);
    assert(after(s, '=') =~= pair.1);
    assert forall|i: int| 0 <= i < s.len() implies s[i] != '&' by {
        if i < pair.0.len() {
            assert(pair.0.contains(pair.0[i]));
        } else if i > pair.0.len() {
            assert(pair.1.contains(pair.1[i - pair.0.len() - 1]));
        }
    }
}

/// One more piece at the end.
proof fn lemma_pieces_append(s: Seq<char>, piece: Seq<char>, sep: char)
    requires
        !piece.contains(sep),
    ensures
        pieces(s + seq![sep] + piece, sep) == pieces(s, sep).push(piece),
    decreases s.len(),
{
    lemma_position_found(s, sep);
    let p = position(s, sep);
    if p < s.len() {
        let head = before(s, sep);
        let rest = s.skip(p + 1);
        assert(!head.contains(sep));
        lemma_pieces_append(rest, piece, sep);
        lemma_pieces_step(head, rest + seq![sep] + piece, sep);
        assert(s + seq![sep] + piece =~= head + seq![sep] + (rest + seq![sep] + piece));
        assert(seq![head] + pieces(rest, sep).push(piece) =~= (seq![head] + pieces(
            rest,
            sep,
        )).push(piece));
    } else {
        assert(!s.contains(sep));
        lemma_pieces_one(s, sep);
        lemma_pieces_step(s, piece, sep);
        lemma_pieces_one(piece, sep);
        assert(seq![s] + seq![piece] =~= seq![s].push(piece));
    }
}

/// Clean pairs are read back from the text of their query.
proof fn lemma_query_text_read_back(pairs: Seq<Pair>)
    requires
        all_clean(pairs),
    ensures
        query_pairs(query_text(pairs)) == pairs,
    decreases pairs.len(),
{
    reveal(Seq::filter);
    let empty: Seq<Seq<char>> = Seq::empty();
    assert(pairs_of(empty) =~= Seq::empty());
    if pairs.len() == 0 {
        let nothing: Seq<char> = Seq::empty();
        lemma_pieces_one(nothing, '&');
        assert(seq![nothing].drop_last() =~= empty);
        assert(query_pairs(query_text(pairs)) =~= pairs);
    } else if pairs.len() == 1 {
        let text = pair_text(pairs[0]);
        lemma_pair_text(pairs[0]);
        lemma_pieces_one(text, '&');
        lemma_pairs_of_push(empty, text);
        assert(seq![text] =~= empty.push(text));
        assert(query_pairs(query_text(pairs)) =~= pairs);
    } else {
        let shorter = pairs.drop_last();
        let text = pair_text(pairs.last());
        lemma_query_text_read_back(shorter);
        lemma_pair_text(pairs.last());
        lemma_pieces_append(query_text(shorter), text, '&');
        lemma_pairs_of_push(pieces(query_text(shorter), '&'), text);
        assert(query_text(pairs) =~= query_text(shorter) + seq!['&'] + text);
        assert(query_pairs(query_text(pairs)) =~= pairs);
    }
}

/// A URL that is put together from a path and pairs is taken apart into the
/// same path and the same pairs.
pub proof fn law_url_round_trip(path: Seq<char>, pairs: Seq<Pair>)
    requires
        !path.contains('?'),
        all_clean(pairs),
    ensures
        url_path(url_text(path, pairs)) == path,
        url_pairs(url_text(path, pairs)) == pairs,
{
    let url = url_text(path, pairs);
    lemma_query_text_read_back(pairs);
    lemma_url_split(path, pairs);
    if pairs.len() == 0 {
        assert(query_text(pairs) =~= after(url, '?'));
    }
}

/// Where a URL that is put together comes apart.
proof fn lemma_url_split(path: Seq<char>, pairs: Seq<Pair>)
    requires
        !path.contains('?'),
    ensures
        url_path(url_text(path, pairs)) == path,
        after(url_text(path, pairs), '?') == query_text(pairs),
{
    let url = url_text(path, pairs);
    assert forall|i: int| 0 <= i < path.len() implies url[i] != '?' by {
        assert(url[i] == path[i]);
        assert(path.contains(path[i]));
    }
    lemma_position(url, '?', path.len() as int);
    assert(url_path(url) =~= path);
    assert(after(url, '?') =~= query_text(pairs));
}

/// No path holds a question mark.
proof fn lemma_path_plain(url: Seq<char>)
    ensures
        !url_path(url).contains('?'),
{
    lemma_position_found(url, '?');
}

/// Updating the query leaves what stands before it as it was.
pub proof fn law_path_is_kept(url: Seq<char>, updates: Seq<Update>)
    ensures
        url_path(upserted(url, updates)) == url_path(url),
{
    lemma_path_plain(url);
    lemma_url_split(url_path(url), all_updated(url_pairs(url), updates));
}

/// No piece holds a separator.
proof fn lemma_pieces_plain(s: Seq<char>, sep: char)
    ensures
        forall|i: int|
            0 <= i < pieces(s, sep).len() ==> !(#[trigger] pieces(s, sep)[i]).contains(sep),
    decreases s.len(),
{
    lemma_position_found(s, sep);
    let p = position(s, sep);
    if p < s.len() {
        let rest = s.skip(p + 1);
        lemma_pieces_plain(rest, sep);
        assert forall|i: int| 0 <= i < pieces(s, sep).len() implies !(#[trigger] pieces(
            s,
            sep,
        )[i]).contains(sep) by {
            if i > 0 {
                assert(pieces(s, sep)[i] == pieces(rest, sep)[i - 1]);
            }
        }
    }
}

/// The pairs of pieces without separators are clean.
proof fn lemma_pairs_clean(list: Seq<Seq<char>>)
    requires
        forall|i: int| 0 <= i < list.len() ==> !(#[trigger] list[i]).contains('&'),
    ensures
        all_clean(pairs_of(list)),
    decreases list.len(),
{
    reveal(Seq::filter);
    if list.len() > 0 {
        let shorter = list.drop_last();
        let piece = list.last();
        assert forall|i: int| 0 <= i < shorter.len() implies !(
        #[trigger] shorter[i]).contains('&') by {
            assert(shorter[i] == list[i]);
        }
        lemma_pairs_clean(shorter);
        assert(shorter.push(piece) =~= list);
        if piece.len() > 0 {
            lemma_pairs_of_push(shorter, piece);
            lemma_position_found(piece, '=');
            assert(!piece.contains('&'));
            assert(is_clean(pair_of(piece))) by {
                let pair = pair_of(piece);
                assert forall|i: int| 0 <= i < pair.0.len() implies pair.0[i] != '&'
                    && pair.0[i] != '=' by {
                    assert(pair.0[i] == piece[i]);
                    assert(piece.contains(piece[i]));
                }
                assert forall|i: int| 0 <= i < pair.1.len() implies pair.1[i] != '&' by {
                    assert(pair.1[i] == piece[position(piece, '=') + 1 + i]);
                    assert(piece.contains(pair.1[i]));
                }
            }
        } else {
            assert(pairs_of(list) =~= pairs_of(shorter));
        }
    }
}

/// What is read from a query can be written to one.
pub proof fn law_url_pairs_clean(url: Seq<char>)
    ensures
        all_clean(url_pairs(url)),
{
    let query = after(url, '?');
    lemma_pieces_plain(query, '&');
    lemma_pairs_clean(pieces(query, '&'));
}

/// Clean updates keep pairs clean.
proof fn lemma_updated_clean(pairs: Seq<Pair>, updates: Seq<Update>)
    requires
        all_clean(pairs),
        clean_updates(updates),
    ensures
        all_clean(all_updated(pairs, updates)),
    decreases updates.len(),
{
    if updates.len() > 0 {
        let shorter = updates.drop_last();
        assert forall|i: int| 0 <= i < shorter.len() implies is_clean_update(
            #[trigger] shorter[i],
        ) by {
            assert(shorter[i] == updates[i]);
        }
        lemma_updated_clean(pairs, shorter);
        let between = all_updated(pairs, shorter);
        let update = updates[updates.len() - 1];
        assert(is_clean_update(update));
        lemma_key_position_found(between, update.0);
        let after_all = all_updated(pairs, updates);
        assert forall|i: int| 0 <= i < after_all.len() implies is_clean(
            #[trigger] after_all[i],
        ) by {
            if after_all.len() < between.len() && i >= key_position(between, update.0) {
                assert(is_clean(between[i + 1]));
            } else if i < between.len() {
                assert(is_clean(between[i]));
            }
        }
    }
}

/// The value of a key after one update that is not its removal.
proof fn lemma_updated_value(pairs: Seq<Pair>, update: Update, key: Seq<char>)
    requires
        update.0 == key ==> update.1 is Some,
    ensures
        value_of(updated(pairs, update), key) == if update.0 == key {
            update.1
        } else {
            value_of(pairs, key)
        },
{
    let next = updated(pairs, update);
    let index = key_position(pairs, update.0);
    lemma_key_position_found(pairs, update.0);
    lemma_key_position_found(pairs, key);
    let found = key_position(pairs, key);
    if index < pairs.len() && update.1 is None {
        let moved = if index < found {
            found - 1
        } else {
            found
        };
        assert forall|i: int| 0 <= i < moved implies (#[trigger] next[i]).0 != key by {
            if i < index {
                assert(pairs[i].0 != key);
            } else {
                assert(pairs[i + 1].0 != key);
            }
        }
        if found < pairs.len() {
            assert(next[moved] == pairs[found]);
        }
        lemma_key_position(next, key, moved);
    } else if index < pairs.len() {
        assert forall|i: int| 0 <= i < next.len() implies (#[trigger] next[i]).0 == pairs[i].0 by {}
        assert forall|i: int| 0 <= i < found implies (#[trigger] next[i]).0 != key by {
            assert(pairs[i].0 != key);
        }
        lemma_key_position(next, key, found);
    } else {
        assert forall|i: int| 0 <= i < found implies (#[trigger] next[i]).0 != key by {
            assert(pairs[i].0 != key);
        }
        if found < pairs.len() {
            lemma_key_position(next, key, found);
        } else if update.0 == key {
            lemma_key_position(next, key, pairs.len() as int);
        } else {
            lemma_key_position(next, key, next.len() as int);
        }
    }
}

/// The value of a key after all updates.
proof fn lemma_all_updated_value(pairs: Seq<Pair>, updates: Seq<Update>, key: Seq<char>)
    ensures
        match last_update(updates, key) {
            Some(Some(value)) => value_of(all_updated(pairs, updates), key) == Some(value),
            Some(None) => true,
            None => value_of(all_updated(pairs, updates), key) == value_of(pairs, key),
        },
    decreases updates.len(),
{
    if updates.len() > 0 {
        let shorter = updates.drop_last();
        lemma_all_updated_value(pairs, shorter, key);
        if updates.last().0 != key || updates.last().1 is Some {
            lemma_updated_value(all_updated(pairs, shorter), updates.last(), key);
        }
    }
}

/// After a URL is updated, a key whose last update sets a value has that value,
/// and a key without an update has the value that it had.
pub proof fn law_settings_are_read_back(url: Seq<char>, updates: Seq<Update>, key: Seq<char>)
    requires
        clean_updates(updates),
    ensures
        match last_update(updates, key) {
            Some(Some(value)) => value_of(url_pairs(upserted(url, updates)), key) == Some(value),
            Some(None) => true,
            None => value_of(url_pairs(upserted(url, updates)), key) == value_of(
                url_pairs(url),
                key,
            ),
        },
{
    lemma_upserted_pairs(url, updates);
    lemma_all_updated_value(url_pairs(url), updates, key);
}

/// Taking a key out of a URL takes out the first pair with it, and nothing where
/// there is none.
pub proof fn law_removal_takes_the_first(url: Seq<char>, key: Seq<char>)
    ensures
        ({
            let pairs = url_pairs(url);
            let index = key_position(pairs, key);
            url_pairs(upserted(url, seq![(key, None)])) == if index < pairs.len() {
                pairs.remove(index)
            } else {
                pairs
            }
        }),
{
    let pairs = url_pairs(url);
    let removal: Seq<Update> = seq![(key, None)];
    law_url_pairs_clean(url);
    lemma_path_plain(url);
    lemma_key_position_found(pairs, key);
    assert(removal.drop_last() =~= Seq::empty());
    assert(all_updated(pairs, removal.drop_last()) == pairs);
    let left = all_updated(pairs, removal);
    assert forall|i: int| 0 <= i < left.len() implies is_clean(#[trigger] left[i]) by {
        if left.len() < pairs.len() && i >= key_position(pairs, key) {
            assert(left[i] == pairs[i + 1]);
        } else {
            assert(left[i] == pairs[i]);
        }
    }
    law_url_round_trip(url_path(url), left);
}

/// Settings of keys that are there change no key, and what is not the first
/// pair with its key not at all.
proof fn lemma_resetting(pairs: Seq<Pair>, updates: Seq<Update>)
    requires
        clean_settings(updates),
        forall|i: int|
            0 <= i < updates.len() ==> key_position(pairs, (#[trigger] updates[i]).0)
                < pairs.len(),
    ensures
        all_updated(pairs, updates).len() == pairs.len(),
        forall|i: int|
            0 <= i < pairs.len() ==> (#[trigger] all_updated(pairs, updates)[i]).0 == pairs[i].0,
        forall|i: int|
            0 <= i < pairs.len() && i != key_position(pairs, pairs[i].0) ==> (
            #[trigger] all_updated(pairs, updates)[i]).1 == pairs[i].1,
    decreases updates.len(),
{
    if updates.len() > 0 {
        let shorter = updates.drop_last();
        assert forall|i: int| 0 <= i < shorter.len() implies is_clean_setting(
            #[trigger] shorter[i],
        ) && key_position(pairs, shorter[i].0) < pairs.len() by {
            assert(shorter[i] == updates[i]);
        }
        lemma_resetting(pairs, shorter);
        let between = all_updated(pairs, shorter);
        let key = updates[updates.len() - 1].0;
        assert(is_clean_setting(updates[updates.len() - 1]));
        lemma_key_position_found(pairs, key);
        let index = key_position(pairs, key);
        assert forall|i: int| 0 <= i < index implies (#[trigger] between[i]).0 != key by {
            assert(pairs[i].0 != key);
        }
        lemma_key_position(between, key, index);
        let next = all_updated(pairs, updates);
        assert forall|i: int|
            0 <= i < pairs.len() && i != key_position(pairs, pairs[i].0) implies (
        #[trigger] next[i]).1 == pairs[i].1 by {
            assert(between[i].1 == pairs[i].1);
        }
    }
}

/// A key that was set is there.
proof fn lemma_set_keys_there(pairs: Seq<Pair>, updates: Seq<Update>, j: int)
    requires
        clean_settings(updates),
        0 <= j < updates.len(),
    ensures
        last_update(updates, updates[j].0) matches Some(Some(_)),
        key_position(all_updated(pairs, updates), updates[j].0) < all_updated(
            pairs,
            updates,
        ).len(),
{
    lemma_last_setting(updates, j);
    lemma_all_updated_value(pairs, updates, updates[j].0);
}

/// A key with an update has a last setting.
proof fn lemma_last_setting(updates: Seq<Update>, j: int)
    requires
        clean_settings(updates),
        0 <= j < updates.len(),
    ensures
        last_update(updates, updates[j].0) matches Some(Some(_)),
    decreases updates.len(),
{
    assert(is_clean_setting(updates[updates.len() - 1]));
    if updates.last().0 != updates[j].0 {
        let shorter = updates.drop_last();
        assert forall|i: int| 0 <= i < shorter.len() implies is_clean_setting(
            #[trigger] shorter[i],
        ) by {
            assert(shorter[i] == updates[i]);
        }
        assert(shorter[j] == updates[j]);
        lemma_last_setting(shorter, j);
    }
}

/// Where all updates set values, no update takes a pair out.
proof fn lemma_settings_only(updates: Seq<Update>, key: Seq<char>)
    requires
        clean_settings(updates),
    ensures
        last_update(updates, key) != Some(None::<Seq<char>>),
    decreases updates.len(),
{
    if updates.len() > 0 {
        assert(is_clean_setting(updates[updates.len() - 1]));
        let shorter = updates.drop_last();
        assert forall|i: int| 0 <= i < shorter.len() implies is_clean_setting(
            #[trigger] shorter[i],
        ) by {
            assert(shorter[i] == updates[i]);
        }
        lemma_settings_only(shorter, key);
    }
}

/// Settings that were made once change nothing when they are made again.
proof fn lemma_updates_settle(pairs: Seq<Pair>, updates: Seq<Update>)
    requires
        clean_settings(updates),
    ensures
        all_updated(all_updated(pairs, updates), updates) == all_updated(pairs, updates),
{
    let once = all_updated(pairs, updates);
    let twice = all_updated(once, updates);
    assert forall|i: int| 0 <= i < updates.len() implies key_position(
        once,
        (#[trigger] updates[i]).0,
    ) < once.len() by {
        lemma_set_keys_there(pairs, updates, i);
    }
    lemma_resetting(once, updates);
    assert forall|i: int| 0 <= i < once.len() implies twice[i] == once[i] by {
        let key = once[i].0;
        lemma_key_position_found(once, key);
        let first = key_position(once, key);
        assert(twice[i].0 == key);
        if i == first {
            assert forall|k: int| 0 <= k < first implies (#[trigger] twice[k]).0 != key by {
                assert(once[k].0 != key);
            }
            lemma_key_position(twice, key, first);
            lemma_settings_only(updates, key);
            lemma_all_updated_value(once, updates, key);
            lemma_all_updated_value(pairs, updates, key);
            assert(value_of(twice, key) == Some(twice[i].1));
            assert(value_of(once, key) == Some(once[i].1));
        }
    }
    assert(twice =~= once);
}

/// Clean settings are clean updates.
proof fn lemma_settings_are_updates(updates: Seq<Update>)
    requires
        clean_settings(updates),
    ensures
        clean_updates(updates),
{
    assert forall|i: int| 0 <= i < updates.len() implies is_clean_update(#[trigger] updates[i]) by {
        assert(is_clean_setting(updates[i]));
    }
}

/// Writing the same settings into a URL a second time changes nothing.
pub proof fn law_settings_settle(url: Seq<char>, updates: Seq<Update>)
    requires
        clean_settings(updates),
    ensures
        upserted(upserted(url, updates), updates) == upserted(url, updates),
{
    lemma_settings_are_updates(updates);
    lemma_upserted_pairs(url, updates);
    lemma_updates_settle(url_pairs(url), updates);
}

/// Updates one after the other.
proof fn lemma_all_updated_add(pairs: Seq<Pair>, a: Seq<Update>, b: Seq<Update>)
    ensures
        all_updated(pairs, a + b) == all_updated(all_updated(pairs, a), b),
    decreases b.len(),
{
    if b.len() == 0 {
        assert(a + b =~= a);
    } else {
        lemma_all_updated_add(pairs, a, b.drop_last());
        assert((a + b).drop_last() =~= a + b.drop_last());
    }
}

/// Clean updates that are written into a URL are read back from it.
pub proof fn lemma_upserted_pairs(url: Seq<char>, updates: Seq<Update>)
    requires
        clean_updates(updates),
    ensures
        url_path(upserted(url, updates)) == url_path(url),
        url_pairs(upserted(url, updates)) == all_updated(url_pairs(url), updates),
{
    law_url_pairs_clean(url);
    lemma_path_plain(url);
    lemma_updated_clean(url_pairs(url), updates);
    law_url_round_trip(url_path(url), all_updated(url_pairs(url), updates));
}

/// Updating a URL and updating the outcome is the same as making all updates at
/// once.
pub proof fn law_updates_join(url: Seq<char>, a: Seq<Update>, b: Seq<Update>)
    requires
        clean_updates(a),
    ensures
        upserted(url, a + b) == upserted(upserted(url, a), b),
{
    lemma_upserted_pairs(url, a);
    lemma_all_updated_add(url_pairs(url), a, b);
}

/// Whether an update has this key.
pub open spec fn names(updates: Seq<Update>, key: Seq<char>) -> bool {
    exists|i: int| 0 <= i < updates.len() && (#[trigger] updates[i]).0 == key
}

/// The pairs whose key no update has, in order.
pub open spec fn unnamed(pairs: Seq<Pair>, updates: Seq<Update>) -> Seq<Pair> {
    pairs.filter(|pair: Pair| !names(updates, pair.0))
}

/// A filter that drops the only pair leaves nothing.
proof fn lemma_filter_one(pair: Pair, keep: spec_fn(Pair) -> bool)
    requires
        !keep(pair),
    ensures
        seq![pair].filter(keep) == Seq::<Pair>::empty(),
{
    reveal_with_fuel(Seq::filter, 2);
    assert(seq![pair].drop_last() =~= Seq::empty());
}

/// A filter that drops a pair before and after it is replaced, and one that is
/// added or taken out, does not see an update.
proof fn lemma_updated_filter(pairs: Seq<Pair>, update: Update, keep: spec_fn(Pair) -> bool)
    requires
        forall|pair: Pair| #[trigger] keep(pair) ==> pair.0 != update.0,
    ensures
        updated(pairs, update).filter(keep) == pairs.filter(keep),
{
    reveal(Seq::filter);
    lemma_key_position_found(pairs, update.0);
    let index = key_position(pairs, update.0);
    let next = updated(pairs, update);
    if index < pairs.len() {
        let head = pairs.take(index);
        let tail = pairs.skip(index + 1);
        let gone = seq![pairs[index]];
        assert(pairs =~= head + gone + tail);
        lemma_filter_one(pairs[index], keep);
        Seq::filter_distributes_over_add(head + gone, tail, keep);
        Seq::filter_distributes_over_add(head, gone, keep);
        match update.1 {
            Some(value) => {
                let here = seq![(pairs[index].0, value)];
                assert(next =~= head + here + tail);
                lemma_filter_one((pairs[index].0, value), keep);
                Seq::filter_distributes_over_add(head + here, tail, keep);
                Seq::filter_distributes_over_add(head, here, keep);
            },
            None => {
                assert(next =~= head + tail);
                Seq::filter_distributes_over_add(head, tail, keep);
            },
        }
        assert(next.filter(keep) =~= pairs.filter(keep));
    } else if let Some(value) = update.1 {
        assert(next.drop_last() =~= pairs);
    }
}

/// A filter that drops all pairs with an updated key does not see the updates.
pub proof fn lemma_all_updated_filter(
    pairs: Seq<Pair>,
    updates: Seq<Update>,
    keep: spec_fn(Pair) -> bool,
)
    requires
        forall|pair: Pair| #[trigger] keep(pair) ==> !names(updates, pair.0),
    ensures
        all_updated(pairs, updates).filter(keep) == pairs.filter(keep),
    decreases updates.len(),
{
    if updates.len() > 0 {
        let shorter = updates.drop_last();
        let update = updates[updates.len() - 1];
        assert forall|pair: Pair| #[trigger] keep(pair) implies !names(shorter, pair.0) && pair.0
            != update.0 by {
            if names(shorter, pair.0) {
                let i = choose|i: int|
                    0 <= i < shorter.len() && (#[trigger] shorter[i]).0 == pair.0;
                assert(updates[i].0 == pair.0);
            }
        }
        lemma_all_updated_filter(pairs, shorter, keep);
        lemma_updated_filter(all_updated(pairs, shorter), update, keep);
    }
}

/// Pairs whose key no update has keep their values and their order.
pub proof fn law_other_pairs_are_kept(url: Seq<char>, updates: Seq<Update>)
    requires
        clean_updates(updates),
    ensures
        unnamed(url_pairs(upserted(url, updates)), updates) == unnamed(url_pairs(url), updates),
{
    lemma_upserted_pairs(url, updates);
    lemma_all_updated_filter(
        url_pairs(url),
        updates,
        |pair: Pair| !names(updates, pair.0),
    );
}

/// The keys of pairs, in order.
pub open spec fn keys(pairs: Seq<Pair>) -> Seq<Seq<char>> {
    pairs.map_values(|pair: Pair| pair.0)
}

/// The keys that updates have and `there` has not, each once, in the order of
/// the updates.
pub open spec fn new_keys(there: Seq<Seq<char>>, updates: Seq<Update>) -> Seq<Seq<char>>
    decreases updates.len(),
{
    if updates.len() == 0 {
        Seq::empty()
    } else {
        let sooner = new_keys(there, updates.drop_last());
        let key = updates.last().0;
        if there.contains(key) || sooner.contains(key) {
            sooner
        } else {
            sooner.push(key)
        }
    }
}

/// The keys after one setting.
proof fn lemma_updated_keys(pairs: Seq<Pair>, update: Update)
    requires
        update.1 is Some,
    ensures
        keys(updated(pairs, update)) == if keys(pairs).contains(update.0) {
            keys(pairs)
        } else {
            keys(pairs).push(update.0)
        },
{
    lemma_key_position_found(pairs, update.0);
    let index = key_position(pairs, update.0);
    let next = updated(pairs, update);
    if index < pairs.len() {
        assert(keys(pairs)[index] == update.0);
        assert(keys(next) =~= keys(pairs));
    } else {
        assert forall|i: int| 0 <= i < keys(pairs).len() implies keys(pairs)[i] != update.0 by {
            assert(pairs[i].0 != update.0);
        }
        assert(keys(next) =~= keys(pairs).push(update.0));
    }
}

/// The keys after all settings.
proof fn lemma_all_updated_keys(pairs: Seq<Pair>, updates: Seq<Update>)
    requires
        clean_settings(updates),
    ensures
        keys(all_updated(pairs, updates)) == keys(pairs) + new_keys(keys(pairs), updates),
    decreases updates.len(),
{
    if updates.len() == 0 {
        assert(keys(pairs) + new_keys(keys(pairs), updates) =~= keys(pairs));
    } else {
        let shorter = updates.drop_last();
        assert forall|i: int| 0 <= i < shorter.len() implies is_clean_setting(
            #[trigger] shorter[i],
        ) by {
            assert(shorter[i] == updates[i]);
        }
        assert(is_clean_setting(updates[updates.len() - 1]));
        lemma_all_updated_keys(pairs, shorter);
        lemma_updated_keys(all_updated(pairs, shorter), updates.last());
        let there = keys(pairs);
        let sooner = new_keys(there, shorter);
        let key = updates.last().0;
        if there.contains(key) {
            let i = choose|i: int| 0 <= i < there.len() && there[i] == key;
            assert((there + sooner)[i] == key);
        } else if sooner.contains(key) {
            let i = choose|i: int| 0 <= i < sooner.len() && sooner[i] == key;
            assert((there + sooner)[there.len() + i] == key);
        } else {
            assert(!(there + sooner).contains(key)) by {
                assert forall|i: int| 0 <= i < (there + sooner).len() implies (there + sooner)[i]
                    != key by {
                    if i < there.len() {
                        assert(there.contains(there[i]));
                    } else {
                        assert(sooner.contains(sooner[i - there.len()]));
                    }
                }
            }
            assert((there + sooner).push(key) =~= there + sooner.push(key));
        }
    }
}

/// Where updates only set values, the keys that were there keep their places,
/// and the new ones follow in the order of the updates.
pub proof fn law_keys_keep_their_places(url: Seq<char>, updates: Seq<Update>)
    requires
        clean_settings(updates),
    ensures
        keys(url_pairs(upserted(url, updates))) == keys(url_pairs(url)) + new_keys(
            keys(url_pairs(url)),
            updates,
        ),
{
    lemma_settings_are_updates(updates);
    lemma_upserted_pairs(url, updates);
    lemma_all_updated_keys(url_pairs(url), updates);
}

/// The pieces of two texts with a separator between them.
proof fn lemma_pieces_add(a: Seq<char>, b: Seq<char>, sep: char)
    ensures
        pieces(a + seq![sep] + b, sep) == pieces(a, sep) + pieces(b, sep),
    decreases a.len(),
{
    lemma_position_found(a, sep);
    let p = position(a, sep);
    if p < a.len() {
        let head = before(a, sep);
        let rest = a.skip(p + 1);
        assert(!head.contains(sep));
        lemma_pieces_add(rest, b, sep);
        lemma_pieces_step(head, rest + seq![sep] + b, sep);
        assert(a + seq![sep] + b =~= head + seq![sep] + (rest + seq![sep] + b));
        assert(seq![head] + (pieces(rest, sep) + pieces(b, sep)) =~= seq![head] + pieces(rest, sep)
            + pieces(b, sep));
    } else {
        assert(!a.contains(sep));
        lemma_pieces_one(a, sep);
        lemma_pieces_step(a, b, sep);
    }
}

/// The query of a URL that has one.
proof fn lemma_query_of(path: Seq<char>, query: Seq<char>)
    requires
        !path.contains('?'),
    ensures
        url_path(path + seq!['?'] + query) == path,
        after(path + seq!['?'] + query, '?') == query,
{
    let url = path + seq!['?'] + query;
    assert forall|i: int| 0 <= i < path.len() implies url[i] != '?' by {
        assert(url[i] == path[i]);
        assert(path.contains(path[i]));
    }
    lemma_position(url, '?', path.len() as int);
    assert(url_path(url) =~= path);
    assert(after(url, '?') =~= query);
}

/// A URL without a question mark has no pairs; what stands before the first
/// question mark is its path.
pub proof fn law_path_ends_at_the_question_mark(path: Seq<char>, query: Seq<char>)
    requires
        !path.contains('?'),
    ensures
        url_path(path) == path,
        url_pairs(path) == Seq::<Pair>::empty(),
        url_path(path + seq!['?'] + query) == path,
        url_pairs(path + seq!['?'] + query) == query_pairs(query),
{
    lemma_query_of(path, query);
    assert forall|i: int| 0 <= i < path.len() implies path[i] != '?' by {
        assert(path.contains(path[i]));
    }
    lemma_position(path, '?', path.len() as int);
    assert(url_path(path) =~= path);
    reveal_with_fuel(Seq::filter, 2);
    let nothing: Seq<char> = Seq::empty();
    lemma_pieces_one(nothing, '&');
    assert(seq![nothing].drop_last() =~= Seq::empty());
    assert(url_pairs(path) =~= Seq::<Pair>::empty());
}

/// The pairs before an ampersand and those behind it are the pairs of a query.
pub proof fn law_ampersands_part_pairs(path: Seq<char>, a: Seq<char>, b: Seq<char>)
    requires
        !path.contains('?'),
    ensures
        url_pairs(path + seq!['?'] + (a + seq!['&'] + b)) == url_pairs(path + seq!['?'] + a)
            + url_pairs(path + seq!['?'] + b),
{
    lemma_query_of(path, a + seq!['&'] + b);
    lemma_query_of(path, a);
    lemma_query_of(path, b);
    lemma_pieces_add(a, b, '&');
    Seq::filter_distributes_over_add(
        pieces(a, '&'),
        pieces(b, '&'),
        |piece: Seq<char>| piece.len() > 0,
    );
    assert(url_pairs(path + seq!['?'] + (a + seq!['&'] + b)) =~= url_pairs(path + seq!['?'] + a)
        + url_pairs(path + seq!['?'] + b));
}

/// A key, an equals sign and a value are a pair; a key alone is a pair with an
/// empty value; and nothing is no pair.
pub proof fn law_equals_signs_part_keys_and_values(
    path: Seq<char>,
    key: Seq<char>,
    value: Seq<char>,
)
    requires
        !path.contains('?'),
        is_clean((key, value)),
    ensures
        url_pairs(path + seq!['?'] + (key + seq!['='] + value)) == seq![(key, value)],
        key.len() > 0 ==> url_pairs(path + seq!['?'] + key) == seq![(key, Seq::<char>::empty())],
        url_pairs(path + seq!['?'] + Seq::<char>::empty()) == Seq::<Pair>::empty(),
{
    reveal_with_fuel(Seq::filter, 2);
    let nothing: Seq<char> = Seq::empty();
    let text = pair_text((key, value));
    lemma_query_of(path, text);
    lemma_query_of(path, key);
    lemma_query_of(path, nothing);
    lemma_pair_text((key, value));
    lemma_pieces_one(text, '&');
    lemma_pieces_one(key, '&');
    lemma_pieces_one(nothing, '&');
    assert(seq![text].drop_last() =~= Seq::empty());
    assert(seq![key].drop_last() =~= Seq::empty());
    assert(seq![nothing].drop_last() =~= Seq::empty());
    assert forall|i: int| 0 <= i < key.len() implies key[i] != '=' by {
        assert(key.contains(key[i]));
    }
    lemma_position(key, '=', key.len() as int);
    assert(before(key, '=') =~= key);
    assert(url_pairs(path + seq!['?'] + text) =~= seq![(key, value)]);
    if key.len() > 0 {
        assert(url_pairs(path + seq!['?'] + key) =~= seq![(key, nothing)]);
    }
    assert(url_pairs(path + seq!['?'] + nothing) =~= Seq::<Pair>::empty());
}

/// Updates and pairs say what they hold, in order.
pub proof fn law_updates_and_pairs_say_what_they_hold(
    updates: Seq<(&str, Option<&str>)>,
    pairs: Seq<(String, String)>,
    i: int,
)
    ensures
        update_views(updates).len() == updates.len(),
        0 <= i < updates.len() ==> {
            &&& update_views(updates)[i].0 == updates[i].0@
            &&& match updates[i].1 {
                Some(value) => update_views(updates)[i].1 == Some(value@),
                None => update_views(updates)[i].1 is None,
            }
        },
        pair_views(pairs).len() == pairs.len(),
        0 <= i < pairs.len() ==> pair_views(pairs)[i] == (pairs[i].0@, pairs[i].1@),
{
}

/// Whether the first pair with the key is at this place.
pub open spec fn is_first_with(pairs: Seq<Pair>, key: Seq<char>, index: int) -> bool {
    &&& 0 <= index < pairs.len()
    &&& pairs[index].0 == key
    &&& forall|i: int| 0 <= i < index ==> (#[trigger] pairs[i]).0 != key
}

/// Whether no pair has the key.
pub open spec fn lacks(pairs: Seq<Pair>, key: Seq<char>) -> bool {
    forall|i: int| 0 <= i < pairs.len() ==> (#[trigger] pairs[i]).0 != key
}

/// Whether an update turns these pairs into those: the first pair with the key,
/// and no other, gets the value or goes; where there is none, a pair with a
/// value comes to the end.
pub open spec fn turns_into(pairs: Seq<Pair>, update: Update, next: Seq<Pair>) -> bool {
    ||| exists|index: int| #[trigger]
        is_first_with(pairs, update.0, index) && next == match update.1 {
            Some(value) => pairs.update(index, (update.0, value)),
            None => pairs.remove(index),
        }
    ||| lacks(pairs, update.0) && next == match update.1 {
        Some(value) => pairs.push((update.0, value)),
        None => pairs,
    }
}

/// The pairs as they are written, each behind a sign: the first behind `sign`,
/// the others behind ampersands.
pub open spec fn written(sign: char, pairs: Seq<Pair>) -> Seq<char>
    decreases pairs.len(),
{
    if pairs.len() == 0 {
        Seq::empty()
    } else {
        seq![sign] + pairs[0].0 + seq!['='] + pairs[0].1 + written('&', pairs.drop_first())
    }
}

/// One more pair that is written.
proof fn lemma_written_push(sign: char, pairs: Seq<Pair>, pair: Pair)
    ensures
        written(sign, pairs.push(pair)) == written(sign, pairs) + seq![
            if pairs.len() == 0 {
                sign
            } else {
                '&'
            },
        ] + pair.0 + seq!['='] + pair.1,
    decreases pairs.len(),
{
    let more = pairs.push(pair);
    if pairs.len() == 0 {
        assert(more.drop_first() =~= Seq::empty());
        assert(written('&', more.drop_first()) =~= Seq::empty());
        assert(written(sign, more) =~= written(sign, pairs) + seq![sign] + pair.0 + seq!['=']
            + pair.1);
    } else {
        lemma_written_push('&', pairs.drop_first(), pair);
        assert(more.drop_first() =~= pairs.drop_first().push(pair));
        assert(written(sign, more) =~= written(sign, pairs) + seq!['&'] + pair.0 + seq!['=']
            + pair.1);
    }
}

/// A URL is its path and its pairs as they are written.
proof fn lemma_url_text_written(path: Seq<char>, pairs: Seq<Pair>)
    ensures
        url_text(path, pairs) == path + written('?', pairs),
    decreases pairs.len(),
{
    if pairs.len() == 0 {
        assert(path + written('?', pairs) =~= path);
    } else {
        let shorter = pairs.drop_last();
        lemma_url_text_written(path, shorter);
        lemma_written_push('?', shorter, pairs.last());
        assert(pairs =~= shorter.push(pairs.last()));
        let pair = pairs.last();
        let end = pair.0 + seq!['='] + pair.1;
        if pairs.len() == 1 {
            assert(written('?', pairs) =~= seq!['?'] + end);
            assert(query_text(pairs) == end);
            assert(path + seq!['?'] + end =~= path + (seq!['?'] + end));
        } else {
            assert(written('?', pairs) =~= written('?', shorter) + (seq!['&'] + end));
            assert(query_text(pairs) =~= query_text(shorter) + (seq!['&'] + end));
            assert(path + seq!['?'] + query_text(pairs) =~= url_text(path, shorter) + (seq!['&']
                + end));
            assert(path + written('?', shorter) + (seq!['&'] + end) =~= path + (written(
                '?',
                shorter,
            ) + (seq!['&'] + end)));
        }
    }
}

/// One update turns pairs into what it does to them, and into nothing else.
proof fn lemma_updated_turns_into(pairs: Seq<Pair>, update: Update, next: Seq<Pair>)
    requires
        turns_into(pairs, update, next),
    ensures
        updated(pairs, update) == next,
{
    if lacks(pairs, update.0) {
        lemma_key_position(pairs, update.0, pairs.len() as int);
        if exists|index: int| #[trigger] is_first_with(pairs, update.0, index) {
            let index = choose|index: int| #[trigger] is_first_with(pairs, update.0, index);
            assert(pairs[index].0 != update.0);
        }
    } else {
        let index = choose|index: int| #[trigger]
            is_first_with(pairs, update.0, index) && next == match update.1 {
                Some(value) => pairs.update(index, (update.0, value)),
                None => pairs.remove(index),
            };
        lemma_key_position(pairs, update.0, index);
    }
}

/// All updates turn pairs into the last of what they do to them in turn.
proof fn lemma_all_updated_turn_into(
    pairs: Seq<Pair>,
    updates: Seq<Update>,
    stages: Seq<Seq<Pair>>,
)
    requires
        stages.len() == updates.len() + 1,
        stages[0] == pairs,
        forall|i: int|
            0 <= i < updates.len() ==> turns_into(
                stages[i],
                #[trigger] updates[i],
                stages[i + 1],
            ),
    ensures
        all_updated(pairs, updates) == stages.last(),
    decreases updates.len(),
{
    if updates.len() > 0 {
        let shorter = updates.drop_last();
        let sooner = stages.drop_last();
        assert forall|i: int| 0 <= i < shorter.len() implies turns_into(
            sooner[i],
            #[trigger] shorter[i],
            sooner[i + 1],
        ) by {
            assert(turns_into(stages[i], updates[i], stages[i + 1]));
        }
        lemma_all_updated_turn_into(pairs, shorter, sooner);
        let end = updates.len() - 1;
        assert(turns_into(stages[end], updates[end], stages[end + 1]));
        lemma_updated_turns_into(stages[end], updates[end], stages[end + 1]);
    }
}

/// Whatever is set or taken out, what stands before the question mark stays, and
/// behind it the pairs are written that the updates turn those of the URL into,
/// one after the other.
pub proof fn law_updated_url_is_written(
    path: Seq<char>,
    rest: Seq<char>,
    updates: Seq<Update>,
    stages: Seq<Seq<Pair>>,
)
    requires
        !path.contains('?'),
        rest.len() > 0 ==> rest[0] == '?',
        stages.len() == updates.len() + 1,
        stages[0] == url_pairs(path + rest),
        forall|i: int|
            0 <= i < updates.len() ==> turns_into(
                stages[i],
                #[trigger] updates[i],
                stages[i + 1],
            ),
    ensures
        upserted(path + rest, updates) == path + written('?', stages.last()),
{
    if rest.len() > 0 {
        let query = rest.drop_first();
        assert(path + rest =~= path + seq!['?'] + query);
        lemma_query_of(path, query);
    } else {
        assert(path + rest =~= path);
        law_path_ends_at_the_question_mark(path, rest);
    }
    lemma_all_updated_turn_into(url_pairs(path + rest), updates, stages);
    lemma_url_text_written(path, stages.last());
}

/// The URL to connect to asks for transcription, and on Azure names the
/// deployment, whatever stood in the URL that was set.
pub proof fn law_ws_url_parameters(config: AsrConfig, backend: OpenAiRealtimeBackend)
    requires
        backend == OpenAiRealtimeBackend::AzureOpenAi ==> !deployment(config).contains('&'),
    ensures
        ws_url(config, backend) matches Ok(url) ==> {
            &&& value_of(url_pairs(url), "intent"@) == Some("transcription"@)
            &&& backend == OpenAiRealtimeBackend::AzureOpenAi ==> value_of(
                url_pairs(url),
                "deployment"@,
            ) == Some(deployment(config))
        },
{
    reveal_strlit("intent");
    reveal_strlit("transcription");
    reveal_strlit("deployment");
    if let Ok(url) = ws_url(config, backend) {
        let base = trimmed(config.url@);
        let updates = url_updates(backend, deployment(config));
        assert(clean_updates(updates)) by {
            assert forall|i: int| 0 <= i < updates.len() implies is_clean_update(
                #[trigger] updates[i],
            ) by {
                if i == 0 && backend == OpenAiRealtimeBackend::AzureOpenAi {
                    assert(is_clean(("deployment"@, deployment(config))));
                } else {
                    assert(is_clean(("intent"@, "transcription"@)));
                }
            }
        }
        law_settings_are_read_back(base, updates, "intent"@);
        law_settings_are_read_back(base, updates, "deployment"@);
        reveal_with_fuel(last_update, 3);
        assert("intent"@.len() != "deployment"@.len());
    }
}

} // verus!
