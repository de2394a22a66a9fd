//! Text as sequences of characters: trimming, joining, comparing.

use vstd::prelude::*;

verus! {

/// Whether `c` has the Unicode property White_Space.
pub open spec fn is_white_space(c: char) -> bool {
    ||| 0x9 <= c as u32 <= 0xd
    ||| c as u32 == 0x20
    ||| c as u32 == 0x85
    ||| c as u32 == 0xa0
    ||| c as u32 == 0x1680
    ||| 0x2000 <= c as u32 <= 0x200a
    ||| 0x2028 <= c as u32 <= 0x2029
    ||| c as u32 == 0x202f
    ||| c as u32 == 0x205f
    ||| c as u32 == 0x3000
}

/// `s` without the white space at its start.
pub open spec fn trimmed_start(s: Seq<char>) -> Seq<char>
    decreases s.len(),
{
    if s.len() > 0 && is_white_space(s[0]) {
        trimmed_start(s.drop_first())
    } else {
        s
    }
}

/// `s` without the white space at its end.
pub open spec fn trimmed_end(s: Seq<char>) -> Seq<char>
    decreases s.len(),
{
    if s.len() > 0 && is_white_space(s.last()) {
        trimmed_end(s.drop_last())
    } else {
        s
    }
}

/// `s` without the white space at either end.
pub open spec fn trimmed(s: Seq<char>) -> Seq<char> {
    trimmed_end(trimmed_start(s))
}

/// What is left at the start has no white space there.
proof fn lemma_trimmed_start(s: Seq<char>)
    ensures
        trimmed_start(s).len() > 0 ==> !is_white_space(trimmed_start(s)[0]),
    decreases s.len(),
{
    if s.len() > 0 && is_white_space(s[0]) {
        lemma_trimmed_start(s.drop_first());
    }
}

/// What is left at the end has no white space there, and begins as before.
proof fn lemma_trimmed_end(s: Seq<char>)
    ensures
        trimmed_end(s).len() > 0 ==> {
            &&& s.len() > 0
            &&& trimmed_end(s)[0] == s[0]
            &&& !is_white_space(trimmed_end(s).last())
        },
    decreases s.len(),
{
    if s.len() > 0 && is_white_space(s.last()) {
        lemma_trimmed_end(s.drop_last());
    }
}

/// A text that was trimmed has no white space at either end.
pub proof fn lemma_trimmed(s: Seq<char>)
    ensures
        trimmed(s).len() > 0 ==> {
            &&& !is_white_space(trimmed(s)[0])
            &&& !is_white_space(trimmed(s).last())
        },
{
    lemma_trimmed_start(s);
    lemma_trimmed_end(trimmed_start(s));
}

/// Whether `s` is white space throughout.
pub open spec fn is_blank(s: Seq<char>) -> bool {
    forall|i: int| 0 <= i < s.len() ==> is_white_space(#[trigger] s[i])
}

/// Whether there is no white space at either end of `s`.
pub open spec fn has_bare_ends(s: Seq<char>) -> bool {
    s.len() > 0 ==> !is_white_space(s[0]) && !is_white_space(s.last())
}

/// White space at the start goes.
proof fn lemma_trimmed_start_of(a: Seq<char>, kept: Seq<char>)
    requires
        is_blank(a),
        kept.len() > 0 ==> !is_white_space(kept[0]),
    ensures
        trimmed_start(a + kept) == kept,
    decreases a.len(),
{
    if a.len() == 0 {
        assert(a + kept =~= kept);
    } else {
        let rest = a.drop_first();
        assert(is_white_space(a[0]));
        assert forall|i: int| 0 <= i < rest.len() implies is_white_space(#[trigger] rest[i]) by {
            assert(rest[i] == a[i + 1]);
        }
        lemma_trimmed_start_of(rest, kept);
        assert((a + kept).drop_first() =~= rest + kept);
    }
}

/// White space at the end goes.
proof fn lemma_trimmed_end_of(kept: Seq<char>, b: Seq<char>)
    requires
        is_blank(b),
        kept.len() > 0 ==> !is_white_space(kept.last()),
    ensures
        trimmed_end(kept + b) == kept,
    decreases b.len(),
{
    if b.len() == 0 {
        assert(kept + b =~= kept);
    } else {
        let rest = b.drop_last();
        assert(is_white_space(b[b.len() - 1]));
        assert forall|i: int| 0 <= i < rest.len() implies is_white_space(#[trigger] rest[i]) by {
            assert(rest[i] == b[i]);
        }
        lemma_trimmed_end_of(kept, rest);
        assert((kept + b).drop_last() =~= kept + rest);
    }
}

/// Trimming takes the white space from the two ends of a text, all of it and
/// nothing else.
pub proof fn law_trimming_takes_the_ends(a: Seq<char>, kept: Seq<char>, b: Seq<char>)
    requires
        is_blank(a),
        is_blank(b),
        has_bare_ends(kept),
    ensures
        trimmed(a + kept + b) == kept,
{
    if kept.len() > 0 {
        assert(a + kept + b =~= a + (kept + b));
        lemma_trimmed_start_of(a, kept + b);
        lemma_trimmed_end_of(kept, b);
    } else {
        let all = a + kept + b;
        let none: Seq<char> = Seq::empty();
        assert forall|i: int| 0 <= i < all.len() implies is_white_space(#[trigger] all[i]) by {
            if i < a.len() {
                assert(all[i] == a[i]);
            } else {
                assert(all[i] == b[i - a.len()]);
            }
        }
        assert(all + none =~= all);
        lemma_trimmed_start_of(all, none);
        assert(kept =~= none);
    }
}

/// What is left at the start stands behind white space.
proof fn lemma_trimmed_start_inside(s: Seq<char>) -> (a: Seq<char>)
    ensures
        is_blank(a),
        s == a + trimmed_start(s),
    decreases s.len(),
{
    if s.len() > 0 && is_white_space(s[0]) {
        let rest = lemma_trimmed_start_inside(s.drop_first());
        let a = seq![s[0]] + rest;
        assert forall|i: int| 0 <= i < a.len() implies is_white_space(#[trigger] a[i]) by {
            if i > 0 {
                assert(a[i] == rest[i - 1]);
            }
        }
        assert(s =~= a + trimmed_start(s)) by {
            assert(s =~= seq![s[0]] + s.drop_first());
        }
        a
    } else {
        let a: Seq<char> = Seq::empty();
        assert(s =~= a + trimmed_start(s));
        a
    }
}

/// What is left at the end stands before white space.
proof fn lemma_trimmed_end_inside(s: Seq<char>) -> (b: Seq<char>)
    ensures
        is_blank(b),
        s == trimmed_end(s) + b,
    decreases s.len(),
{
    if s.len() > 0 && is_white_space(s.last()) {
        let rest = lemma_trimmed_end_inside(s.drop_last());
        let b = rest.push(s.last());
        assert forall|i: int| 0 <= i < b.len() implies is_white_space(#[trigger] b[i]) by {
            if i < rest.len() {
                assert(b[i] == rest[i]);
            }
        }
        assert(s =~= trimmed_end(s) + b) by {
            assert(s =~= s.drop_last().push(s.last()));
        }
        b
    } else {
        let b: Seq<char> = Seq::empty();
        assert(s =~= trimmed_end(s) + b);
        b
    }
}

/// Every text is what is left of it when it is trimmed, between white space.
pub proof fn law_trimmed_stands_inside(s: Seq<char>)
    ensures
        has_bare_ends(trimmed(s)),
        exists|a: Seq<char>, b: Seq<char>|
            #![trigger is_blank(a), is_blank(b)]
            is_blank(a) && is_blank(b) && s == a + trimmed(s) + b,
{
    lemma_trimmed(s);
    let a = lemma_trimmed_start_inside(s);
    let b = lemma_trimmed_end_inside(trimmed_start(s));
    assert(is_blank(a) && is_blank(b));
    assert(s =~= a + trimmed(s) + b);
}

/// `str::trim` returns the text without leading and trailing white space,
/// where white space is the Unicode property White_Space.
pub assume_specification[ str::trim ](s: &str) -> (res: &str)
    ensures
        res@ == trimmed(s@),
;

/// `String::push` appends one character.
pub assume_specification[ String::push ](s: &mut String, c: char)
    ensures
        final(s)@ == old(s)@.push(c),
;

/// The views of a list of texts.
pub open spec fn texts(list: Seq<String>) -> Seq<Seq<char>> {
    list.map_values(|s: String| s@)
}

/// The view of an optional text.
pub open spec fn optional(text: Option<String>) -> Option<Seq<char>> {
    match text {
        Some(s) => Some(s@),
        None => None,
    }
}

/// One text after the other.
pub fn joined(first: &str, second: &str) -> (text: String)
    ensures
        text@ == first@ + second@,
{
    let mut text: String = first.to_owned();
    text.append(second);
    text
}

/// Whether two texts have the same characters.
pub fn same_text(a: &str, b: &str) -> (same: bool)
    ensures
        same == (a@ == b@),
{
    let a: String = a.to_owned();
    let b: String = b.to_owned();
    a == b
}

} // verus!
