//! Names as parts of topics.

use vstd::prelude::*;

use crate::text::{lower_char, push_text};

verus! {

/// Whether `c` is an ASCII letter or digit.
pub open spec fn is_word(c: char) -> bool {
    '0' <= c <= '9' || 'A' <= c <= 'Z' || 'a' <= c <= 'z'
}

/// Whether `c` can stand in a slug: a digit, a small letter or an underscore.
pub open spec fn is_slug_char(c: char) -> bool {
    '0' <= c <= '9' || 'a' <= c <= 'z' || c == '_'
}

/// Letters and digits in lower case; each run of anything else between them as one underscore,
/// and one behind them.
pub open spec fn words(s: Seq<char>) -> Seq<char>
    decreases s.len(),
{
    if s.len() == 0 {
        s
    } else {
        let before = words(s.drop_last());
        if is_word(s.last()) {
            before.push(crate::text::lower(s.last()))
        } else if before.len() > 0 && before.last() != '_' {
            before.push('_')
        } else {
            before
        }
    }
}

/// A name as a part of a topic: its words, joined by underscores.
pub open spec fn slug(name: Seq<char>) -> Seq<char> {
    let w = words(name);
    let trimmed = if w.len() > 0 && w.last() == '_' {
        w.drop_last()
    } else {
        w
    };
    if trimmed.len() == 0 {
        "unnamed"@
    } else {
        trimmed
    }
}

/// Whether `s` can be what `words` makes: slug characters, no underscore in front and no two in a
/// row.
pub open spec fn well_joined(s: Seq<char>) -> bool {
    &&& forall|i: int| 0 <= i < s.len() ==> is_slug_char(#[trigger] s[i])
    &&& s.len() > 0 ==> s[0] != '_'
    &&& forall|i: int|
        #![trigger s[i]]
        0 < i < s.len() && s[i] == '_' ==> s[i - 1] != '_'
}

proof fn lemma_words(s: Seq<char>)
    ensures
        well_joined(words(s)),
    decreases s.len(),
{
    if s.len() > 0 {
        lemma_words(s.drop_last());
        let before = words(s.drop_last());
        let r = words(s);
        assert forall|i: int| 0 <= i < r.len() implies is_slug_char(#[trigger] r[i]) by {
            if i < before.len() {
                assert(r[i] == before[i]);
            }
        }
        assert forall|i: int|
            #![trigger r[i]]
            0 < i < r.len() && r[i] == '_' implies r[i - 1] != '_' by {
            if i < before.len() {
                assert(r[i] == before[i] && r[i - 1] == before[i - 1]);
            } else {
                assert(r[i - 1] == before[i - 1]);
            }
        }
        if r.len() > 0 && before.len() > 0 {
            assert(r[0] == before[0]);
        }
    }
}

/// A slug is not empty and holds only digits, small letters and single underscores between them,
/// so it is one level of a topic.
pub proof fn lemma_slug_is_topic_level(name: Seq<char>)
    ensures
        slug(name).len() > 0,
        well_joined(slug(name)),
        slug(name).last() != '_',
{
    reveal_strlit("unnamed");
    let w = words(name);
    lemma_words(name);
    let r = slug(name);
    if w.len() > 0 && w.last() == '_' && w.drop_last().len() > 0 {
        assert forall|i: int| 0 <= i < r.len() implies is_slug_char(#[trigger] r[i]) by {
            assert(r[i] == w[i]);
        }
        assert forall|i: int|
            #![trigger r[i]]
            0 < i < r.len() && r[i] == '_' implies r[i - 1] != '_' by {
            assert(r[i] == w[i] && r[i - 1] == w[i - 1]);
        }
        assert(w[w.len() - 1] == '_');
        assert(r.last() == w[w.len() - 2]);
    }
}

/// Text that is already joined well is left as it is.
proof fn lemma_words_of_joined(s: Seq<char>)
    requires
        well_joined(s),
    ensures
        words(s) == s,
    decreases s.len(),
{
    if s.len() > 0 {
        let front = s.drop_last();
        assert(well_joined(front)) by {
            assert forall|i: int| 0 <= i < front.len() implies is_slug_char(#[trigger] front[i]) by {
                assert(front[i] == s[i]);
            }
            assert forall|i: int|
                #![trigger front[i]]
                0 < i < front.len() && front[i] == '_' implies front[i - 1] != '_' by {
                assert(front[i] == s[i] && front[i - 1] == s[i - 1]);
            }
        }
        lemma_words_of_joined(front);
        assert(is_slug_char(s[s.len() - 1]));
        assert(front.push(s.last()) =~= s);
        if s.last() == '_' {
            assert(s[s.len() - 1] == '_');
            if s.len() > 1 {
                assert(front.last() == s[s.len() - 2]);
            }
        }
    }
}

/// The slug of a slug is that slug.
pub proof fn lemma_slug_twice(name: Seq<char>)
    ensures
        slug(slug(name)) == slug(name),
{
    lemma_slug_is_topic_level(name);
    lemma_words_of_joined(slug(name));
}

pub fn slugify(name: &str) -> (r: String)
    ensures
        r@ == slug(name@),
{
    let mut out: Vec<char> = Vec::new();
    let chars = crate::text::chars_of(name);
    let mut i: usize = 0;
    assert(chars@.take(0) =~= Seq::empty());
    while i < chars.len()
        invariant
            i <= chars@.len(),
            chars@ == name@,
            out@ == words(chars@.take(i as int)),
        decreases chars@.len() - i,
    {
        assert(chars@.take(i + 1).drop_last() =~= chars@.take(i as int));
        let c = chars[i];
        if ('0' <= c && c <= '9') || ('A' <= c && c <= 'Z') || ('a' <= c && c <= 'z') {
            out.push(lower_char(c));
        } else if out.len() > 0 && out[out.len() - 1] != '_' {
            out.push('_');
        }
        i = i + 1;
    }
    assert(chars@.take(i as int) =~= chars@);
    let mut n: usize = out.len();
    if n > 0 && out[n - 1] == '_' {
        n = n - 1;
        assert(out@.subrange(0, n as int) =~= out@.drop_last());
    } else {
        assert(out@.subrange(0, n as int) =~= out@);
    }
    if n == 0 {
        let mut r = String::new();
        push_text(&mut r, "unnamed");
        assert(Seq::<char>::empty() + "unnamed"@ =~= "unnamed"@);
        return r;
    }
    crate::text::string_of(&out, 0, n)
}

/// The letters and digits of a name are kept in their order, in lower case.
pub proof fn lemma_slug_keeps_letters(name: Seq<char>)
    requires
        exists|i: int| 0 <= i < name.len() && is_word(#[trigger] name[i]),
    ensures
        slug(name).filter(|c: char| c != '_') == name.filter(|c: char| is_word(c)).map_values(
            |c: char| crate::text::lower(c),
        ),
{
    let keep = |c: char| c != '_';
    lemma_words_keep_letters(name);
    let w = words(name);
    let i = choose|i: int| 0 <= i < name.len() && is_word(#[trigger] name[i]);
    lemma_filter_has(name, i);
    reveal(Seq::filter);
    if w.len() > 0 && w.last() == '_' {
        assert(w.drop_last().filter(keep) == w.filter(keep));
        if w.drop_last().len() == 0 {
            assert(w.filter(keep) =~= Seq::empty());
        }
    }
    if w.len() == 0 {
        assert(w.filter(keep) =~= Seq::empty());
    }
}

proof fn lemma_filter_has(name: Seq<char>, i: int)
    requires
        0 <= i < name.len(),
        is_word(name[i]),
    ensures
        name.filter(|c: char| is_word(c)).len() > 0,
    decreases name.len(),
{
    reveal(Seq::filter);
    if i < name.len() - 1 {
        assert(name.drop_last()[i] == name[i]);
        lemma_filter_has(name.drop_last(), i);
    }
}

proof fn lemma_words_keep_letters(s: Seq<char>)
    ensures
        words(s).filter(|c: char| c != '_') == s.filter(|c: char| is_word(c)).map_values(
            |c: char| crate::text::lower(c),
        ),
    decreases s.len(),
{
    let keep = |c: char| c != '_';
    let word = |c: char| is_word(c);
    let small = |c: char| crate::text::lower(c);
    reveal(Seq::filter);
    if s.len() == 0 {
        assert(words(s).filter(keep) =~= Seq::empty());
        assert(s.filter(word).map_values(small) =~= Seq::empty());
    } else {
        let front = s.drop_last();
        let before = words(front);
        lemma_words_keep_letters(front);
        if is_word(s.last()) {
            let c = crate::text::lower(s.last());
            assert(before.push(c).drop_last() =~= before);
            assert(front.filter(word).push(s.last()).map_values(small) =~= front.filter(
                word,
            ).map_values(small).push(c));
        } else {
            assert(before.push('_').drop_last() =~= before);
        }
    }
}

/// Where a run of other characters stands between two letters or digits, the slug has one
/// underscore, and otherwise none: the slug of two parts is that of the first, an underscore, and
/// that of the second.
pub proof fn lemma_slug_joins_words(a: Seq<char>, gap: Seq<char>, b: Seq<char>)
    requires
        a.len() > 0,
        is_word(a.last()),
        gap.len() > 0,
        forall|i: int| 0 <= i < gap.len() ==> !is_word(#[trigger] gap[i]),
        b.len() > 0,
        is_word(b[0]),
    ensures
        slug(a + gap + b) == slug(a).push('_') + slug(b),
{
    lemma_words(a);
    lemma_words(b);
    let wa = words(a);
    assert(wa.last() == crate::text::lower(a.last()));
    lemma_gap(a, gap);
    lemma_words_joined(a + gap, b);
    let w = words(a + gap + b);
    assert(w == wa.push('_') + words(b));
    let wb = words(b);
    lemma_words_start(b);
    if wb.last() == '_' {
        assert(wb.len() > 1);
        assert(w.drop_last() =~= wa.push('_') + wb.drop_last());
    }
}

/// Without other characters between its letters and digits a name has no underscore in its slug.
pub proof fn lemma_slug_of_one_word(a: Seq<char>)
    requires
        a.len() > 0,
        forall|i: int| 0 <= i < a.len() ==> is_word(#[trigger] a[i]),
    ensures
        slug(a) == a.map_values(|c: char| crate::text::lower(c)),
{
    lemma_one_word(a);
    assert(words(a).last() == crate::text::lower(a[a.len() - 1]));
}

proof fn lemma_one_word(a: Seq<char>)
    requires
        forall|i: int| 0 <= i < a.len() ==> is_word(#[trigger] a[i]),
    ensures
        words(a) == a.map_values(|c: char| crate::text::lower(c)),
    decreases a.len(),
{
    let small = |c: char| crate::text::lower(c);
    if a.len() > 0 {
        let front = a.drop_last();
        assert forall|i: int| 0 <= i < front.len() implies is_word(#[trigger] front[i]) by {
            assert(front[i] == a[i]);
        }
        lemma_one_word(front);
        assert(is_word(a[a.len() - 1]));
        assert(a.map_values(small) =~= front.map_values(small).push(small(a.last())));
    } else {
        assert(a.map_values(small) =~= a);
    }
}

/// A name without letters and digits has a slug of its own.
pub proof fn lemma_slug_of_no_word(name: Seq<char>)
    requires
        forall|i: int| 0 <= i < name.len() ==> !is_word(#[trigger] name[i]),
    ensures
        slug(name) == "unnamed"@,
{
    lemma_no_word(name);
}

proof fn lemma_no_word(name: Seq<char>)
    requires
        forall|i: int| 0 <= i < name.len() ==> !is_word(#[trigger] name[i]),
    ensures
        words(name).len() == 0,
    decreases name.len(),
{
    if name.len() > 0 {
        let front = name.drop_last();
        assert forall|i: int| 0 <= i < front.len() implies !is_word(#[trigger] front[i]) by {
            assert(front[i] == name[i]);
        }
        lemma_no_word(front);
        assert(!is_word(name[name.len() - 1]));
    }
}

proof fn lemma_gap(a: Seq<char>, gap: Seq<char>)
    requires
        words(a).len() > 0,
        words(a).last() != '_',
        gap.len() > 0,
        forall|i: int| 0 <= i < gap.len() ==> !is_word(#[trigger] gap[i]),
    ensures
        words(a + gap) == words(a).push('_'),
    decreases gap.len(),
{
    let front = gap.drop_last();
    assert((a + gap).drop_last() =~= a + front);
    assert((a + gap).last() == gap[gap.len() - 1]);
    if front.len() == 0 {
        assert(a + front =~= a);
    } else {
        assert forall|i: int| 0 <= i < front.len() implies !is_word(#[trigger] front[i]) by {
            assert(front[i] == gap[i]);
        }
        lemma_gap(a, front);
    }
}

proof fn lemma_words_start(b: Seq<char>)
    requires
        b.len() > 0,
        is_word(b[0]),
    ensures
        words(b).len() > 0,
        words(b)[0] != '_',
        b.len() > 0 && words(b).last() == '_' ==> words(b).len() > 1,
    decreases b.len(),
{
    let front = b.drop_last();
    if front.len() == 0 {
        assert(words(front).len() == 0);
        assert(words(b)[0] == crate::text::lower(b[0]));
        crate::text::lemma_lower(b[0]);
    } else {
        assert(front[0] == b[0]);
        lemma_words_start(front);
        assert(words(b)[0] == words(front)[0]);
    }
}

proof fn lemma_words_joined(a: Seq<char>, b: Seq<char>)
    requires
        words(a).len() > 0,
        words(a).last() == '_',
        b.len() > 0,
        is_word(b[0]),
    ensures
        words(a + b) == words(a) + words(b),
    decreases b.len(),
{
    let front = b.drop_last();
    assert((a + b).drop_last() =~= a + front);
    assert((a + b).last() == b.last());
    if front.len() == 0 {
        assert(a + front =~= a);
        assert(front =~= Seq::empty());
        assert(words(front) =~= Seq::empty());
        assert(words(a) + words(b) =~= words(a).push(crate::text::lower(b.last())));
    } else {
        assert(front[0] == b[0]);
        lemma_words_joined(a, front);
        lemma_words_start(front);
        assert(words(a + front).last() == words(front).last());
        assert(words(a + b) =~= words(a) + words(b));
    }
}

} // verus!
