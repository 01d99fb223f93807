//! Character-sequence helpers: the `split` semantics of `str`, stated as
//! spec functions, and executable searches over windows of a `Vec<char>`.
use vstd::prelude::*;

verus! {

/// Copies the characters of `text` into a vector.
pub fn chars_of(text: &str) -> (v: Vec<char>)
    ensures
        v@ == text@,
{
    let mut v: Vec<char> = Vec::new();
    for c in it: text.chars()
        invariant
            v@ == it.seq().take(it.index()),
            it.seq() == text@,
    {
        v.push(c);
    }
    v
}

/// `pat` occurs in `s` at position `i`.
pub open spec fn occurs_at(s: Seq<char>, pat: Seq<char>, i: int) -> bool {
    0 <= i && i + pat.len() <= s.len() && s.subrange(i, i + pat.len()) == pat
}

/// The first position at or after `from` where `pat` occurs in `s`.
pub open spec fn first_occurrence_from(s: Seq<char>, pat: Seq<char>, from: int) -> Option<int>
    decreases s.len() + 1 - from,
{
    if from < 0 || from + pat.len() > s.len() {
        None
    } else if occurs_at(s, pat, from) {
        Some(from)
    } else {
        first_occurrence_from(s, pat, from + 1)
    }
}

/// The first position where `pat` occurs in `s`.
pub open spec fn first_occurrence(s: Seq<char>, pat: Seq<char>) -> Option<int> {
    first_occurrence_from(s, pat, 0)
}

/// The pieces of `s` between the non-overlapping occurrences of `pat`,
/// found from left to right: what `str::split` yields for a non-empty pattern.
pub open spec fn split_pieces(s: Seq<char>, pat: Seq<char>) -> Seq<Seq<char>>
    decreases s.len(),
{
    if pat.len() == 0 {
        seq![s]
    } else {
        match first_occurrence(s, pat) {
            Some(i) => if 0 <= i && i + pat.len() <= s.len() {
                seq![s.take(i)] + split_pieces(s.skip(i + pat.len()), pat)
            } else {
                seq![s]
            },
            None => seq![s],
        }
    }
}

/// The part of `s` before the first occurrence of `pat` (all of `s` where
/// there is none): the first piece that `str::split` yields.
pub open spec fn before_first(s: Seq<char>, pat: Seq<char>) -> Seq<char> {
    match first_occurrence(s, pat) {
        Some(i) => s.take(i),
        None => s,
    }
}

/// The part of `s` after the first occurrence of `pat`, if there is one.
pub open spec fn after_first(s: Seq<char>, pat: Seq<char>) -> Option<Seq<char>> {
    match first_occurrence(s, pat) {
        Some(i) => Some(s.skip(i + pat.len())),
        None => None,
    }
}

/// A found occurrence lies inside `s` and no earlier one exists.
pub proof fn lemma_first_occurrence_from(s: Seq<char>, pat: Seq<char>, from: int)
    requires
        pat.len() > 0,
        from >= 0,
    ensures
        match first_occurrence_from(s, pat, from) {
            Some(i) => from <= i && occurs_at(s, pat, i) && forall|j: int|
                from <= j < i ==> !occurs_at(s, pat, j),
            None => forall|j: int| from <= j ==> !occurs_at(s, pat, j),
        },
    decreases s.len() + 1 - from,
{
    if from + pat.len() > s.len() {
    } else if occurs_at(s, pat, from) {
    } else {
        lemma_first_occurrence_from(s, pat, from + 1);
    }
}

/// `pat` occurs in `s` at `i`, compared element by element over a window of `v`.
fn occurs_in_window(v: &Vec<char>, i: usize, hi: usize, pat: &Vec<char>) -> (r: bool)
    requires
        i <= hi <= v@.len(),
    ensures
        r == (i + pat@.len() <= hi && v@.subrange(i as int, i + pat@.len()) == pat@),
{
    if pat.len() > hi - i {
        return false;
    }
    let mut k: usize = 0;
    while k < pat.len()
        invariant
            i + pat@.len() <= hi <= v@.len(),
            k <= pat@.len(),
            forall|m: int| 0 <= m < k ==> v@[i + m] == pat@[m],
        decreases pat@.len() - k,
    {
        if v[i + k] != pat[k] {
            assert(v@.subrange(i as int, i + pat@.len())[k as int] != pat@[k as int]);
            return false;
        }
        k = k + 1;
    }
    assert(v@.subrange(i as int, i + pat@.len()) =~= pat@);
    true
}

/// The first occurrence of `pat` inside the window `v[lo..hi]`, as a position of `v`.
pub fn find_in_window(v: &Vec<char>, lo: usize, hi: usize, pat: &Vec<char>) -> (r: Option<usize>)
    requires
        lo <= hi <= v@.len(),
        pat@.len() > 0,
    ensures
        match first_occurrence(v@.subrange(lo as int, hi as int), pat@) {
            Some(i) => r == Some((lo + i) as usize),
            None => r is None,
        },
        match r {
            Some(j) => {
                &&& lo <= j && j + pat@.len() <= hi
                &&& before_first(v@.subrange(lo as int, hi as int), pat@) == v@.subrange(
                    lo as int,
                    j as int,
                )
                &&& after_first(v@.subrange(lo as int, hi as int), pat@) == Some(
                    v@.subrange(j + pat@.len(), hi as int),
                )
            },
            None => {
                &&& before_first(v@.subrange(lo as int, hi as int), pat@) == v@.subrange(
                    lo as int,
                    hi as int,
                )
                &&& after_first(v@.subrange(lo as int, hi as int), pat@) is None
            },
        },
{
    let ghost w = v@.subrange(lo as int, hi as int);
    proof {
        lemma_first_occurrence_from(w, pat@, 0);
    }
    let mut j: usize = lo;
    while j < hi
        invariant
            lo <= j <= hi <= v@.len(),
            pat@.len() > 0,
            w == v@.subrange(lo as int, hi as int),
            first_occurrence(w, pat@) == first_occurrence_from(w, pat@, j - lo),
        decreases hi - j,
    {
        let found = occurs_in_window(v, j, hi, pat);
        proof {
            if j - lo + pat@.len() <= w.len() {
                assert(w.subrange(j - lo, j - lo + pat@.len()) =~= v@.subrange(
                    j as int,
                    j + pat@.len(),
                ));
            }
        }
        if found {
            proof {
                assert(w.take(j - lo) =~= v@.subrange(lo as int, j as int));
                assert(w.skip(j - lo + pat@.len()) =~= v@.subrange(j + pat@.len(), hi as int));
            }
            return Some(j);
        }
        j = j + 1;
    }
    None
}


/// The character sequences that a vector of strings holds.
pub open spec fn string_views(v: Seq<String>) -> Seq<Seq<char>> {
    v.map_values(|x: String| x@)
}

/// Collects characters into a `String` (std's `FromIterator<char>` for `String`,
/// which appends each character in order).
#[verifier::external_body]
fn string_from_chars(chars: Vec<char>) -> (s: String)
    ensures
        s@ == chars@,
{
    String::from_iter(chars)
}

/// The window `v[lo..hi]` as a `String`.
pub fn string_of_window(v: &Vec<char>, lo: usize, hi: usize) -> (s: String)
    requires
        lo <= hi <= v@.len(),
    ensures
        s@ == v@.subrange(lo as int, hi as int),
{
    let mut part: Vec<char> = Vec::new();
    let mut k: usize = lo;
    while k < hi
        invariant
            lo <= k <= hi <= v@.len(),
            part@ == v@.subrange(lo as int, k as int),
        decreases hi - k,
    {
        part.push(v[k]);
        k = k + 1;
        assert(part@ =~= v@.subrange(lo as int, k as int));
    }
    string_from_chars(part)
}

/// What `find_in_window` found, read back as a statement about the window.
proof fn lemma_found_in_window(w: Seq<char>, pat: Seq<char>)
    requires
        pat.len() > 0,
    ensures
        first_occurrence(w, pat) matches Some(i) ==> 0 <= i && i + pat.len() <= w.len(),
{
    lemma_first_occurrence_from(w, pat, 0);
}

/// The pieces of the window `v[lo..hi]` between occurrences of `pat`, as strings.
pub fn split_window(v: &Vec<char>, lo: usize, hi: usize, pat: &Vec<char>) -> (pieces: Vec<String>)
    requires
        lo <= hi <= v@.len(),
        pat@.len() > 0,
    ensures
        string_views(pieces@) == split_pieces(v@.subrange(lo as int, hi as int), pat@),
{
    let mut pieces: Vec<String> = Vec::new();
    let mut pos: usize = lo;
    loop
        invariant_except_break
            lo <= pos <= hi <= v@.len(),
            pat@.len() > 0,
            string_views(pieces@) + split_pieces(v@.subrange(pos as int, hi as int), pat@)
                == split_pieces(v@.subrange(lo as int, hi as int), pat@),
        ensures
            string_views(pieces@) == split_pieces(v@.subrange(lo as int, hi as int), pat@),
        decreases hi - pos,
    {
        let ghost w = v@.subrange(pos as int, hi as int);
        let ghost before = pieces@;
        proof {
            lemma_found_in_window(w, pat@);
        }
        match find_in_window(v, pos, hi, pat) {
            Some(j) => {
                let piece = string_of_window(v, pos, j);
                pieces.push(piece);
                proof {
                    assert(w.take(j - pos) =~= v@.subrange(pos as int, j as int));
                    assert(w.skip(j - pos + pat@.len()) =~= v@.subrange(
                        j + pat@.len(),
                        hi as int,
                    ));
                    assert(string_views(pieces@) =~= string_views(before).push(piece@));
                    assert(split_pieces(w, pat@) == seq![w.take(j - pos)] + split_pieces(
                        w.skip(j - pos + pat@.len()),
                        pat@,
                    ));
                    assert(string_views(pieces@) + split_pieces(
                        v@.subrange(j + pat@.len(), hi as int),
                        pat@,
                    ) =~= string_views(before) + split_pieces(w, pat@));
                }
                pos = j + pat.len();
            },
            None => {
                let piece = string_of_window(v, pos, hi);
                pieces.push(piece);
                proof {
                    assert(split_pieces(w, pat@) == seq![w]);
                    assert(string_views(pieces@) =~= string_views(before) + seq![w]);
                }
                break;
            },
        }
    }
    pieces
}


/// Unicode's `White_Space` property, which `char::is_whitespace` tests.
pub open spec fn is_white_space(c: char) -> bool {
    ||| '\u{9}' <= c && c <= '\u{d}'
    ||| c == ' '
    ||| c == '\u{85}'
    ||| c == '\u{a0}'
    ||| c == '\u{1680}'
    ||| '\u{2000}' <= c && c <= '\u{200a}'
    ||| c == '\u{2028}'
    ||| c == '\u{2029}'
    ||| c == '\u{202f}'
    ||| c == '\u{205f}'
    ||| c == '\u{3000}'
}

/// Whether `c` is white space in Unicode's sense.
pub fn is_white_space_char(c: char) -> (r: bool)
    ensures
        r == is_white_space(c),
{
    ('\u{9}' <= c && c <= '\u{d}') || c == ' ' || c == '\u{85}' || c == '\u{a0}' || c == '\u{1680}'
        || ('\u{2000}' <= c && c <= '\u{200a}') || c == '\u{2028}' || c == '\u{2029}' || c
        == '\u{202f}' || c == '\u{205f}' || c == '\u{3000}'
}

/// The first position at or after `from` that holds white space.
pub open spec fn first_white_space_from(s: Seq<char>, from: int) -> Option<int>
    decreases s.len() - from,
{
    if from < 0 || from >= s.len() {
        None
    } else if is_white_space(s[from]) {
        Some(from)
    } else {
        first_white_space_from(s, from + 1)
    }
}

/// The pieces of `s` between single white-space characters (empty pieces
/// included): what `str::split(char::is_whitespace)` yields.
pub open spec fn split_at_white_space(s: Seq<char>) -> Seq<Seq<char>>
    decreases s.len(),
{
    match first_white_space_from(s, 0) {
        Some(i) => if 0 <= i < s.len() {
            seq![s.take(i)] + split_at_white_space(s.skip(i + 1))
        } else {
            seq![s]
        },
        None => seq![s],
    }
}

/// The first white-space character inside the window `v[lo..hi]`, as a position of `v`.
pub fn find_white_space_in_window(v: &Vec<char>, lo: usize, hi: usize) -> (r: Option<usize>)
    requires
        lo <= hi <= v@.len(),
    ensures
        match first_white_space_from(v@.subrange(lo as int, hi as int), 0) {
            Some(i) => r == Some((lo + i) as usize) && 0 <= i < hi - lo,
            None => r is None,
        },
{
    let ghost w = v@.subrange(lo as int, hi as int);
    let mut j: usize = lo;
    while j < hi
        invariant
            lo <= j <= hi <= v@.len(),
            w == v@.subrange(lo as int, hi as int),
            first_white_space_from(w, 0) == first_white_space_from(w, j - lo),
        decreases hi - j,
    {
        assert(w[j - lo] == v@[j as int]);
        if is_white_space_char(v[j]) {
            return Some(j);
        }
        j = j + 1;
    }
    None
}


/// The part before the first `c` holds no `c`.
pub proof fn lemma_before_first_lacks(s: Seq<char>, c: char)
    ensures
        !before_first(s, seq![c]).contains(c),
{
    lemma_first_occurrence_from(s, seq![c], 0);
    let b = before_first(s, seq![c]);
    assert forall|j: int| 0 <= j < b.len() implies b[j] != c by {
        assert(b[j] == s[j]);
        if s[j] == c {
            assert(s.subrange(j, j + 1) =~= seq![c]);
            assert(occurs_at(s, seq![c], j));
        }
    }
}

/// Every character of a piece of `s` is a character of `s`.
pub proof fn lemma_pieces_within(s: Seq<char>, pat: Seq<char>)
    ensures
        forall|k: int, m: int|
            0 <= k < split_pieces(s, pat).len() && 0 <= m < split_pieces(s, pat)[k].len() ==> s.contains(
                #[trigger] split_pieces(s, pat)[k][m],
            ),
    decreases s.len(),
{
    let pieces = split_pieces(s, pat);
    if pat.len() > 0 {
        if let Some(i) = first_occurrence(s, pat) {
            if 0 <= i && i + pat.len() <= s.len() {
                let rest = s.skip(i + pat.len());
                lemma_pieces_within(rest, pat);
                assert forall|k: int, m: int|
                    0 <= k < pieces.len() && 0 <= m < pieces[k].len() implies s.contains(
                    #[trigger] pieces[k][m],
                ) by {
                    if k == 0 {
                        assert(pieces[0][m] == s[m]);
                    } else {
                        assert(pieces[k] == split_pieces(rest, pat)[k - 1]);
                        let t = choose|t: int| 0 <= t < rest.len() && rest[t] == pieces[k][m];
                        assert(s[t + i + pat.len()] == rest[t]);
                    }
                }
            } else {
                assert forall|k: int, m: int|
                    0 <= k < pieces.len() && 0 <= m < pieces[k].len() implies s.contains(
                    #[trigger] pieces[k][m],
                ) by {
                    assert(pieces[k][m] == s[m]);
                }
            }
        } else {
            assert forall|k: int, m: int|
                0 <= k < pieces.len() && 0 <= m < pieces[k].len() implies s.contains(
                #[trigger] pieces[k][m],
            ) by {
                assert(pieces[k][m] == s[m]);
            }
        }
    } else {
        assert forall|k: int, m: int|
            0 <= k < pieces.len() && 0 <= m < pieces[k].len() implies s.contains(
            #[trigger] pieces[k][m],
        ) by {
            assert(pieces[k][m] == s[m]);
        }
    }
}

/// No piece of `s` split at `c` holds a `c`.
pub proof fn lemma_pieces_lack(s: Seq<char>, c: char)
    ensures
        forall|k: int| 0 <= k < split_pieces(s, seq![c]).len() ==> !(
        #[trigger] split_pieces(s, seq![c])[k]).contains(c),
    decreases s.len(),
{
    let pat = seq![c];
    let pieces = split_pieces(s, pat);
    lemma_before_first_lacks(s, c);
    lemma_first_occurrence_from(s, pat, 0);
    if let Some(i) = first_occurrence(s, pat) {
        let rest = s.skip(i + 1);
        lemma_pieces_lack(rest, c);
        assert forall|k: int| 0 <= k < pieces.len() implies !(#[trigger] pieces[k]).contains(c) by {
            if k > 0 {
                assert(pieces[k] == split_pieces(rest, pat)[k - 1]);
            }
        }
    }
}

/// No piece of `s` split at white space holds white space.
pub proof fn lemma_white_space_pieces_lack(s: Seq<char>)
    ensures
        forall|k: int, m: int|
            0 <= k < split_at_white_space(s).len() && 0 <= m < split_at_white_space(s)[k].len()
                ==> !is_white_space(#[trigger] split_at_white_space(s)[k][m]),
    decreases s.len(),
{
    let pieces = split_at_white_space(s);
    lemma_first_white_space_from(s, 0);
    if let Some(i) = first_white_space_from(s, 0) {
        let rest = s.skip(i + 1);
        lemma_white_space_pieces_lack(rest);
        assert forall|k: int, m: int|
            0 <= k < pieces.len() && 0 <= m < pieces[k].len() implies !is_white_space(
            #[trigger] pieces[k][m],
        ) by {
            if k > 0 {
                assert(pieces[k] == split_at_white_space(rest)[k - 1]);
            } else {
                assert(pieces[0][m] == s[m]);
            }
        }
    } else {
        assert forall|k: int, m: int|
            0 <= k < pieces.len() && 0 <= m < pieces[k].len() implies !is_white_space(
            #[trigger] pieces[k][m],
        ) by {
            assert(pieces[k][m] == s[m]);
        }
    }
}

/// A found white-space character lies in `s`, and none comes before it.
pub proof fn lemma_first_white_space_from(s: Seq<char>, from: int)
    requires
        from >= 0,
    ensures
        match first_white_space_from(s, from) {
            Some(i) => from <= i < s.len() && is_white_space(s[i]) && forall|j: int|
                from <= j < i ==> !is_white_space(#[trigger] s[j]),
            None => forall|j: int| from <= j < s.len() ==> !is_white_space(#[trigger] s[j]),
        },
    decreases s.len() - from,
{
    if from < s.len() && !is_white_space(s[from]) {
        lemma_first_white_space_from(s, from + 1);
    }
}


/// The part before the first occurrence of `pat` is a prefix of `s`, and the
/// part after it a suffix.
pub proof fn lemma_first_split_parts(s: Seq<char>, pat: Seq<char>)
    requires
        pat.len() > 0,
    ensures
        before_first(s, pat).len() <= s.len(),
        before_first(s, pat) == s.take(before_first(s, pat).len() as int),
        after_first(s, pat) matches Some(rest) ==> rest.len() <= s.len() && rest == s.skip(
            s.len() - rest.len(),
        ),
{
    lemma_first_occurrence_from(s, pat, 0);
    match first_occurrence(s, pat) {
        Some(i) => {
            assert(s.skip(i + pat.len()) =~= s.skip(s.len() - (s.len() - (i + pat.len()))));
        },
        None => {
            assert(s.take(s.len() as int) =~= s);
        },
    }
}

/// A character that `s` lacks is lacked by every prefix and suffix of `s`.
pub proof fn lemma_lack_passes_to_parts(s: Seq<char>, c: char, i: int)
    requires
        !s.contains(c),
        0 <= i <= s.len(),
    ensures
        !s.take(i).contains(c),
        !s.skip(i).contains(c),
{
    assert forall|t: int| 0 <= t < s.take(i).len() implies s.take(i)[t] != c by {
        assert(s.take(i)[t] == s[t]);
    }
    assert forall|t: int| 0 <= t < s.skip(i).len() implies s.skip(i)[t] != c by {
        assert(s.skip(i)[t] == s[t + i]);
    }
}

} // verus!
