//! Choosing the locale for formatting the time from the environment's
//! `LC_TIME`, `LC_ALL` and `LANG` values.
use vstd::prelude::*;
use crate::text::{
    lemma_before_first_lacks, lemma_first_split_parts, lemma_lack_passes_to_parts, before_first, chars_of, find_in_window, string_of_window};

verus! {

/// Whether ICU4X parses `tag` as a locale identifier
/// (`icu::locale::Locale::try_from_str` succeeds).
pub uninterp spec fn icu_accepts_locale(tag: Seq<char>) -> bool;

/// `icu::locale::Locale::try_from_str(tag)` and whether it succeeded. Stated:
/// the answer is `icu_accepts_locale` of the tag, since parsing depends on the
/// text alone.
#[verifier::external_body]
fn parses_as_locale(tag: &str) -> (ok: bool)
    ensures
        ok == icu_accepts_locale(tag@),
{
    match icu::locale::Locale::try_from_str(tag) {
        Ok(_) => true,
        Err(_) => false,
    }
}

/// An environment value with its encoding dropped (the part before the first
/// `.`) and `_` written `-`: `en_US.UTF-8` becomes `en-US`.
pub open spec fn cleaned_locale(value: Seq<char>) -> Seq<char> {
    before_first(value, seq!['.']).map_values(|c: char| if c == '_' { '-' } else { c })
}

/// The language of a cleaned value: the part before the first `-`.
pub open spec fn language_of(cleaned: Seq<char>) -> Seq<char> {
    before_first(cleaned, seq!['-'])
}

/// The tag chosen from the values in turn (absent ones skipped): the first
/// cleaned value that ICU accepts, or else its language where ICU accepts
/// that; none where no value gives one.
pub open spec fn chosen_locale_tag(values: Seq<Option<Seq<char>>>) -> Option<Seq<char>>
    decreases values.len(),
{
    if values.len() == 0 {
        None
    } else {
        match values[0] {
            Some(value) => {
                let cleaned = cleaned_locale(value);
                if icu_accepts_locale(cleaned) {
                    Some(cleaned)
                } else if icu_accepts_locale(language_of(cleaned)) {
                    Some(language_of(cleaned))
                } else {
                    chosen_locale_tag(values.drop_first())
                }
            },
            None => chosen_locale_tag(values.drop_first()),
        }
    }
}

/// The character sequences of optional strings.
pub open spec fn option_views(values: Seq<Option<String>>) -> Seq<Option<Seq<char>>> {
    values.map_values(|o: Option<String>| match o {
        Some(s) => Some(s@),
        None => None,
    })
}

/// The two tags tried for one environment value: the cleaned value and its language.
pub fn locale_candidates(value: &str) -> (tags: (String, String))
    ensures
        tags.0@ == cleaned_locale(value@),
        tags.1@ == language_of(cleaned_locale(value@)),
{
    let v = chars_of(value);
    let n = v.len();
    let mut dot: Vec<char> = Vec::new();
    dot.push('.');
    assert(dot@ =~= seq!['.']);
    assert(v@.subrange(0, n as int) =~= value@);
    let end = match find_in_window(&v, 0, n, &dot) {
        Some(j) => j,
        None => n,
    };
    let ghost kept = v@.subrange(0, end as int);
    let mut cleaned: Vec<char> = Vec::new();
    let mut k: usize = 0;
    while k < end
        invariant
            end <= n == v@.len(),
            kept == v@.subrange(0, end as int),
            k <= end,
            cleaned@ == kept.take(k as int).map_values(
                |c: char|
                    if c == '_' {
                        '-'
                    } else {
                        c
                    },
            ),
        decreases end - k,
    {
        let c = v[k];
        let mapped = if c == '_' {
            '-'
        } else {
            c
        };
        cleaned.push(mapped);
        k = k + 1;
        assert(cleaned@ =~= kept.take(k as int).map_values(
            |c: char|
                if c == '_' {
                    '-'
                } else {
                    c
                },
        ));
    }
    assert(kept.take(end as int) =~= kept);
    let m = cleaned.len();
    let mut dash: Vec<char> = Vec::new();
    dash.push('-');
    assert(dash@ =~= seq!['-']);
    assert(cleaned@.subrange(0, m as int) =~= cleaned@);
    let lang_end = match find_in_window(&cleaned, 0, m, &dash) {
        Some(j) => j,
        None => m,
    };
    (string_of_window(&cleaned, 0, m), string_of_window(&cleaned, 0, lang_end))
}

/// The locale tag for formatting the time, from the values of `LC_TIME`,
/// `LC_ALL` and `LANG` in that order (`None` where a variable is unset or not
/// Unicode). `None` means that no value gives a tag that ICU accepts, and the
/// fallback `en-US` is due.
pub fn select_locale_tag(values: &Vec<Option<String>>) -> (tag: Option<String>)
    ensures
        match tag {
            Some(t) => chosen_locale_tag(option_views(values@)) == Some(t@),
            None => chosen_locale_tag(option_views(values@)) is None,
        },
{
    let ghost all = option_views(values@);
    let mut i: usize = 0;
    assert(all.skip(0) =~= all);
    while i < values.len()
        invariant
            i <= values@.len(),
            all == option_views(values@),
            chosen_locale_tag(all) == chosen_locale_tag(all.skip(i as int)),
        decreases values@.len() - i,
    {
        assert(all.skip(i as int).drop_first() =~= all.skip(i + 1));
        assert(all.skip(i as int)[0] == all[i as int]);
        match &values[i] {
            Some(value) => {
                let (cleaned, language) = locale_candidates(value.as_str());
                if parses_as_locale(cleaned.as_str()) {
                    return Some(cleaned);
                }
                if parses_as_locale(language.as_str()) {
                    return Some(language);
                }
            },
            None => {},
        }
        i = i + 1;
    }
    assert(all.skip(i as int) =~= Seq::<Option<Seq<char>>>::empty());
    None
}


/// A cleaned value holds no `.` and no `_`, and neither does its language.
proof fn lemma_cleaned_is_clean(value: Seq<char>)
    ensures
        !cleaned_locale(value).contains('.'),
        !cleaned_locale(value).contains('_'),
        !language_of(cleaned_locale(value)).contains('.'),
        !language_of(cleaned_locale(value)).contains('_'),
{
    let kept = before_first(value, seq!['.']);
    let cleaned = cleaned_locale(value);
    lemma_before_first_lacks(value, '.');
    assert forall|t: int| 0 <= t < cleaned.len() implies cleaned[t] != '.' && cleaned[t] != '_' by {
        assert(kept[t] != '.');
    }
    lemma_first_split_parts(cleaned, seq!['-']);
    lemma_lack_passes_to_parts(cleaned, '.', language_of(cleaned).len() as int);
    lemma_lack_passes_to_parts(cleaned, '_', language_of(cleaned).len() as int);
}

/// The chosen locale tag is one that ICU accepts, and it holds neither the
/// encoding separator `.` nor an underscore.
pub proof fn law_chosen_tag_is_accepted_and_clean(values: Seq<Option<Seq<char>>>)
    ensures
        chosen_locale_tag(values) matches Some(tag) ==> {
            &&& icu_accepts_locale(tag)
            &&& !tag.contains('.')
            &&& !tag.contains('_')
        },
    decreases values.len(),
{
    if values.len() > 0 {
        if let Some(value) = values[0] {
            lemma_cleaned_is_clean(value);
        }
        law_chosen_tag_is_accepted_and_clean(values.drop_first());
    }
}


/// The tag that one environment value gives on its own: the cleaned value
/// where ICU accepts it, else its language where ICU accepts that; none for
/// an unset variable or where ICU accepts neither.
pub open spec fn tag_of_value(value: Option<Seq<char>>) -> Option<Seq<char>> {
    match value {
        Some(v) => if icu_accepts_locale(cleaned_locale(v)) {
            Some(cleaned_locale(v))
        } else if icu_accepts_locale(language_of(cleaned_locale(v))) {
            Some(language_of(cleaned_locale(v)))
        } else {
            None
        },
        None => None,
    }
}

/// The chosen tag is the tag of the first variable that gives one, whatever
/// comes before it (unset variables or values ICU does not accept) and
/// whatever comes after it; there is none only where no variable gives one.
pub proof fn law_first_variable_with_a_tag_wins(values: Seq<Option<Seq<char>>>)
    ensures
        chosen_locale_tag(values) matches Some(tag) ==> exists|i: int|
            0 <= i < values.len() && #[trigger] tag_of_value(values[i]) == Some(tag) && forall|j: int|
                0 <= j < i ==> #[trigger] tag_of_value(values[j]) is None,
        chosen_locale_tag(values) is None ==> forall|i: int|
            0 <= i < values.len() ==> #[trigger] tag_of_value(values[i]) is None,
        forall|i: int|
            0 <= i < values.len() && (forall|j: int| 0 <= j < i ==> #[trigger] tag_of_value(values[j]) is None)
                ==> #[trigger] tag_of_value(values[i]) is Some ==> chosen_locale_tag(values)
                == tag_of_value(values[i]),
    decreases values.len(),
{
    if values.len() > 0 {
        let rest = values.drop_first();
        law_first_variable_with_a_tag_wins(rest);
        assert forall|i: int| 0 < i < values.len() implies values[i] == rest[i - 1] by {}
        if tag_of_value(values[0]) is None {
            assert(chosen_locale_tag(values) == chosen_locale_tag(rest));
            if let Some(tag) = chosen_locale_tag(values) {
                let k = choose|k: int|
                    0 <= k < rest.len() && #[trigger] tag_of_value(rest[k]) == Some(tag) && forall|j: int|
                        0 <= j < k ==> #[trigger] tag_of_value(rest[j]) is None;
                assert(tag_of_value(values[k + 1]) == Some(tag));
                assert forall|j: int| 0 <= j < k + 1 implies #[trigger] tag_of_value(values[j]) is None by {
                    if j > 0 {
                        assert(tag_of_value(rest[j - 1]) is None);
                    }
                }
            }
            assert forall|i: int|
                0 <= i < values.len() && (forall|j: int| 0 <= j < i ==> #[trigger] tag_of_value(values[j]) is None)
                    && #[trigger] tag_of_value(values[i]) is Some implies chosen_locale_tag(values)
                == tag_of_value(values[i]) by {
                if i > 0 {
                    assert forall|j: int| 0 <= j < i - 1 implies #[trigger] tag_of_value(rest[j]) is None by {
                        assert(tag_of_value(values[j + 1]) is None);
                    }
                    assert(tag_of_value(rest[i - 1]) is Some);
                }
            }
        } else {
            assert(chosen_locale_tag(values) == tag_of_value(values[0]));
            assert(tag_of_value(values[0]) == tag_of_value(values[0]));
        }
    }
}

/// An unset variable is skipped: putting one in front changes nothing.
pub proof fn law_unset_variable_is_skipped(values: Seq<Option<Seq<char>>>)
    ensures
        chosen_locale_tag(seq![None] + values) == chosen_locale_tag(values),
{
    let all = seq![None] + values;
    assert(all.drop_first() =~= values);
    assert(all[0] is None);
}

} // verus!
