//! HTTP content negotiation.

use vstd::prelude::*;

use crate::quality::parse_positive;
use crate::text::{chars_of, equal_ignoring_case, find, part, split_text, trim_chars};

verus! {

/// Whether the weight that a parameter of a coding gives is positive; nothing if the parameter is
/// no weight.
pub open spec fn weight(param: Seq<char>) -> Option<bool> {
    let p = crate::text::trimmed(param);
    let eq = crate::text::upto(p, '=');
    if eq < p.len() && crate::text::same_letters(crate::text::trimmed(p.take(eq)), "q"@) {
        crate::quality::positive(crate::text::trimmed(p.skip(eq + 1)))
    } else {
        None
    }
}

/// The last weight among the parameters of a coding; without one the coding is acceptable.
pub open spec fn last_weight(params: Seq<Seq<char>>) -> bool
    decreases params.len(),
{
    if params.len() == 0 {
        true
    } else {
        match weight(params.last()) {
            Some(w) => w,
            None => last_weight(params.drop_last()),
        }
    }
}

/// The parts of an entry of the header: the coding and its parameters.
pub open spec fn entry_parts(entry: Seq<char>) -> Seq<Seq<char>> {
    crate::text::split(crate::text::trimmed(entry), ';')
}

/// The coding that an entry is about.
pub open spec fn coding(entry: Seq<char>) -> Seq<char> {
    crate::text::trimmed(entry_parts(entry)[0])
}

/// Whether the coding of an entry is acceptable.
pub open spec fn acceptable(entry: Seq<char>) -> bool {
    last_weight(entry_parts(entry).drop_first())
}

/// Whether an entry is about gzip.
pub open spec fn about_gzip(entry: Seq<char>) -> bool {
    crate::text::same_letters(coding(entry), "gzip"@) || crate::text::same_letters(
        coding(entry),
        "x-gzip"@,
    )
}

/// Whether an entry is about every coding that is not named.
pub open spec fn about_any(entry: Seq<char>) -> bool {
    coding(entry) == "*"@
}

/// What the last entry about gzip says.
pub open spec fn gzip_verdict(entries: Seq<Seq<char>>) -> Option<bool>
    decreases entries.len(),
{
    if entries.len() == 0 {
        None
    } else if about_gzip(entries.last()) {
        Some(acceptable(entries.last()))
    } else {
        gzip_verdict(entries.drop_last())
    }
}

/// What the last entry about every unnamed coding says.
pub open spec fn any_verdict(entries: Seq<Seq<char>>) -> Option<bool>
    decreases entries.len(),
{
    if entries.len() == 0 {
        None
    } else if about_any(entries.last()) {
        Some(acceptable(entries.last()))
    } else {
        any_verdict(entries.drop_last())
    }
}

/// Whether a client with this header takes gzip: what the header says of gzip itself decides,
/// then what it says of every unnamed coding. A client that sends no header does not.
pub open spec fn gzip_accepted(header: Option<Seq<char>>) -> bool {
    match header {
        None => false,
        Some(h) => {
            let entries = crate::text::split(h, ',');
            match gzip_verdict(entries) {
                Some(verdict) => verdict,
                None => any_verdict(entries) == Some(true),
            }
        },
    }
}

/// Whether the weight that a parameter gives is positive; nothing if it is no weight.
fn parse_q_param(param: &Vec<char>) -> (r: Option<bool>)
    ensures
        r == weight(param@),
{
    let p = trim_chars(param);
    let eq: usize = find(&p, '=');
    let n: usize = p.len();
    if eq == n {
        return None;
    }
    let key = part(&p, 0, eq);
    assert(key@ =~= p@.take(eq as int));
    if !equal_ignoring_case(&trim_chars(&key), "q") {
        return None;
    }
    let value = part(&p, eq + 1, n);
    assert(value@ =~= p@.skip(eq + 1));
    parse_positive(&trim_chars(&value))
}

fn is_star(s: &Vec<char>) -> (r: bool)
    ensures
        r == (s@ == "*"@),
{
    proof {
        reveal_strlit("*");
    }
    let r = s.len() == 1 && s[0] == '*';
    assert(r ==> s@ =~= "*"@);
    r
}

/// Returns `true` when the client's `Accept-Encoding` header signals that
/// `gzip` is an acceptable response coding per RFC 9110 §12.5.3.
///
/// `header_value` is the raw header field value as received from the client,
/// or `None` when the header is absent. An absent header is treated as "identity
/// only" rather than "any coding acceptable": non-browser clients (curl,
/// monitoring probes, embedded clients) routinely omit `Accept-Encoding` and
/// cannot decode gzip blobs.
pub fn accepts_gzip(header_value: Option<&str>) -> (r: bool)
    ensures
        r == gzip_accepted(
            match header_value {
                Some(h) => Some(h@),
                None => None,
            },
        ),
{
    let s = match header_value {
        None => {
            return false;
        },
        Some(s) => s,
    };
    let entries = split_text(&chars_of(s), ',');
    let ghost all = entries.deep_view();
    let mut wildcard_acceptable = false;
    let mut gzip_explicit: Option<bool> = None;
    let mut i: usize = 0;
    while i < entries.len()
        invariant
            i <= entries@.len(),
            all == entries.deep_view(),
            gzip_explicit == gzip_verdict(all.take(i as int)),
            gzip_explicit is None ==> wildcard_acceptable == (any_verdict(all.take(i as int))
                == Some(true)),
        decreases entries@.len() - i,
    {
        let ghost entry = all[i as int];
        proof {
            assert(entry =~= entries@[i as int]@);
            assert(all.take(i + 1).drop_last() =~= all.take(i as int));
            assert(all.take(i + 1).last() == entry);
        }
        let parts = split_text(&trim_chars(&entries[i]), ';');
        let ghost named = parts.deep_view();
        assert(named == entry_parts(entry));
        assert(named[0] =~= parts@[0]@);
        let coding_text = trim_chars(&parts[0]);
        let ghost params = named.drop_first();
        let mut q = true;
        let mut k: usize = 1;
        assert(params.take(0) =~= Seq::empty());
        while k < parts.len()
            invariant
                1 <= k <= parts@.len(),
                named == parts.deep_view(),
                params == named.drop_first(),
                q == last_weight(params.take(k - 1)),
            decreases parts@.len() - k,
        {
            proof {
                assert(params[k - 1] =~= parts@[k as int]@);
                assert(params.take(k as int).drop_last() =~= params.take(k - 1));
                assert(params.take(k as int).last() == params[k - 1]);
            }
            if let Some(value) = parse_q_param(&parts[k]) {
                q = value;
            }
            k = k + 1;
        }
        assert(params.take(k - 1) =~= params);
        if equal_ignoring_case(&coding_text, "gzip") || equal_ignoring_case(
            &coding_text,
            "x-gzip",
        ) {
            gzip_explicit = Some(q);
        } else if is_star(&coding_text) && gzip_explicit.is_none() {
            wildcard_acceptable = q;
        }
        i = i + 1;
    }
    assert(all.take(i as int) =~= all);
    match gzip_explicit {
        Some(verdict) => verdict,
        None => wildcard_acceptable,
    }
}

// ----- What holds of it -----

/// The last entry about gzip decides, whatever stands around it.
pub proof fn lemma_last_word_on_gzip(entries: Seq<Seq<char>>, i: int)
    requires
        0 <= i < entries.len(),
        about_gzip(entries[i]),
        forall|j: int| i < j < entries.len() ==> !about_gzip(#[trigger] entries[j]),
    ensures
        gzip_verdict(entries) == Some(acceptable(entries[i])),
    decreases entries.len(),
{
    if i + 1 < entries.len() {
        assert(!about_gzip(entries[entries.len() - 1]));
        lemma_last_word_on_gzip(entries.drop_last(), i);
    }
}

/// Without an entry about gzip there is no word on it.
pub proof fn lemma_no_word_on_gzip(entries: Seq<Seq<char>>)
    requires
        forall|j: int| 0 <= j < entries.len() ==> !about_gzip(#[trigger] entries[j]),
    ensures
        gzip_verdict(entries) is None,
    decreases entries.len(),
{
    if entries.len() > 0 {
        assert(!about_gzip(entries[entries.len() - 1]));
        lemma_no_word_on_gzip(entries.drop_last());
    }
}

/// The last entry about every unnamed coding decides for those.
pub proof fn lemma_last_word_on_any(entries: Seq<Seq<char>>, i: int)
    requires
        0 <= i < entries.len(),
        about_any(entries[i]),
        forall|j: int| i < j < entries.len() ==> !about_any(#[trigger] entries[j]),
    ensures
        any_verdict(entries) == Some(acceptable(entries[i])),
    decreases entries.len(),
{
    if i + 1 < entries.len() {
        assert(!about_any(entries[entries.len() - 1]));
        lemma_last_word_on_any(entries.drop_last(), i);
    }
}

/// Without an entry about every unnamed coding there is no word on those.
pub proof fn lemma_no_word_on_any(entries: Seq<Seq<char>>)
    requires
        forall|j: int| 0 <= j < entries.len() ==> !about_any(#[trigger] entries[j]),
    ensures
        any_verdict(entries) is None,
    decreases entries.len(),
{
    if entries.len() > 0 {
        assert(!about_any(entries[entries.len() - 1]));
        lemma_no_word_on_any(entries.drop_last());
    }
}

/// A client takes gzip exactly if its header names gzip last with a positive weight or none, or
/// names it nowhere and every unnamed coding last in that way. A client without a header does not
/// take it.
pub proof fn lemma_who_takes_gzip(header: Seq<char>)
    ensures
        ({
            let entries = crate::text::split(header, ',');
            gzip_accepted(Some(header)) <==> {
                ||| exists|i: int|
                    0 <= i < entries.len() && about_gzip(#[trigger] entries[i]) && acceptable(
                        entries[i],
                    ) && forall|j: int|
                        i < j < entries.len() ==> !about_gzip(#[trigger] entries[j])
                ||| (forall|j: int|
                    0 <= j < entries.len() ==> !about_gzip(#[trigger] entries[j])) && exists|
                    i: int,
                |
                    0 <= i < entries.len() && about_any(#[trigger] entries[i]) && acceptable(
                        entries[i],
                    ) && forall|j: int|
                        i < j < entries.len() ==> !about_any(#[trigger] entries[j])
            }
        }),
        !gzip_accepted(None),
{
    let entries = crate::text::split(header, ',');
    let i = lemma_last_about(entries, |e: Seq<char>| about_gzip(e));
    let k = lemma_last_about(entries, |e: Seq<char>| about_any(e));
    if i >= 0 {
        lemma_last_word_on_gzip(entries, i);
        assert forall|m: int|
            0 <= m < entries.len() && about_gzip(#[trigger] entries[m]) && (forall|j: int|
                m < j < entries.len() ==> !about_gzip(#[trigger] entries[j])) implies m == i by {
            if m < i {
                assert(!about_gzip(entries[i]));
            }
            if i < m {
                assert(!about_gzip(entries[m]));
            }
        }
    } else {
        lemma_no_word_on_gzip(entries);
    }
    if k >= 0 {
        lemma_last_word_on_any(entries, k);
        assert forall|m: int|
            0 <= m < entries.len() && about_any(#[trigger] entries[m]) && (forall|j: int|
                m < j < entries.len() ==> !about_any(#[trigger] entries[j])) implies m == k by {
            if m < k {
                assert(!about_any(entries[k]));
            }
            if k < m {
                assert(!about_any(entries[m]));
            }
        }
    } else {
        lemma_no_word_on_any(entries);
    }
}

/// The place of the last entry of some kind, or -1 where there is none.
proof fn lemma_last_about(entries: Seq<Seq<char>>, kind: spec_fn(Seq<char>) -> bool) -> (r: int)
    ensures
        -1 <= r < entries.len(),
        r >= 0 ==> kind(entries[r]),
        forall|j: int| r < j < entries.len() ==> !kind(#[trigger] entries[j]),
    decreases entries.len(),
{
    if entries.len() == 0 {
        -1
    } else if kind(entries.last()) {
        entries.len() - 1
    } else {
        let r = lemma_last_about(entries.drop_last(), kind);
        assert forall|j: int| r < j < entries.len() implies !kind(#[trigger] entries[j]) by {
            if j < entries.len() - 1 {
                assert(entries.drop_last()[j] == entries[j]);
            }
        }
        r
    }
}

/// An entry names its coding before the first semicolon, with or without blanks around it; the
/// name of gzip may be written in any case and with `x-` in front.
pub proof fn lemma_coding_of_an_entry(name: Seq<char>, params: Seq<char>)
    requires
        !name.contains(';'),
        name.len() > 0,
        crate::text::trimmed(name) == name,
        crate::text::trimmed(name + seq![';'] + params) == name + seq![';'] + params,
    ensures
        coding(name) == name,
        acceptable(name),
        coding(name + seq![';'] + params) == name,
        acceptable(name + seq![';'] + params) == last_weight(crate::text::split(params, ';')),
        about_gzip(name) == (crate::text::same_letters(name, "gzip"@)
            || crate::text::same_letters(name, "x-gzip"@)),
        about_any(name) == (name == "*"@),
{
    crate::text::lemma_split_joined(name, ';', params);
    let parts = entry_parts(name + seq![';'] + params);
    assert(parts[0] == name);
    assert(parts.drop_first() =~= crate::text::split(params, ';'));
    assert(entry_parts(name).drop_first() =~= Seq::empty());
}

/// The last parameter that is a weight decides; without a weight a coding is acceptable.
pub proof fn lemma_last_weight_decides(params: Seq<Seq<char>>, i: int)
    requires
        -1 <= i < params.len(),
        i >= 0 ==> weight(params[i]) is Some,
        forall|j: int| i < j < params.len() ==> weight(#[trigger] params[j]) is None,
    ensures
        i >= 0 ==> last_weight(params) == weight(params[i])->0,
        i == -1 ==> last_weight(params),
    decreases params.len(),
{
    if i + 1 < params.len() {
        assert(weight(params[params.len() - 1]) is None);
        lemma_last_weight_decides(params.drop_last(), i);
    }
}

/// A parameter is a weight exactly if it is written as `q=` and a number, with `q` in either case;
/// blanks around either side do not count.
pub proof fn lemma_weights(key: Seq<char>, value: Seq<char>)
    requires
        !key.contains('='),
        crate::text::trimmed(key + seq!['='] + value) == key + seq!['='] + value,
    ensures
        crate::text::same_letters(crate::text::trimmed(key), "q"@) ==> weight(
            key + seq!['='] + value,
        ) == crate::quality::positive(crate::text::trimmed(value)),
        !crate::text::same_letters(crate::text::trimmed(key), "q"@) ==> weight(
            key + seq!['='] + value,
        ) is None,
{
    let p = key + seq!['='] + value;
    crate::text::lemma_upto(p, '=');
    let at = crate::text::upto(p, '=');
    assert(p[key.len() as int] == '=');
    if at < key.len() {
        assert(p[at] == key[at]);
        assert(key.contains(key[at]));
    }
    assert(at == key.len());
    assert(p.take(at) =~= key);
    assert(p.skip(at + 1) =~= value);
}

/// A parameter without an equals sign is no weight.
pub proof fn lemma_no_weight(param: Seq<char>)
    requires
        !crate::text::trimmed(param).contains('='),
    ensures
        weight(param) is None,
{
    let p = crate::text::trimmed(param);
    crate::text::lemma_upto(p, '=');
    let at = crate::text::upto(p, '=');
    if at < p.len() {
        assert(p.contains(p[at]));
    }
}

} // verus!
