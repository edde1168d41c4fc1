//! The cookie-file naming convention and the derivation of display
//! metadata from a profile identifier.
//!
//! A profile source file is named `cookies_<identifier>` or
//! `cookies_<identifier>.txt`; any other extension disqualifies the file.
use vstd::prelude::*;
use crate::text::char_upper_of;
use crate::text::lower_of;
use crate::text::lower_chars;
use crate::text::upper_char;
use crate::text::append_chars;
use crate::text::str_to_chars;
use crate::text::string_from_chars;

verus! {

pub open spec fn cookie_prefix() -> Seq<char> {
    "cookies_"@
}

pub open spec fn txt_suffix() -> Seq<char> {
    ".txt"@
}

pub open spec fn has_prefix(s: Seq<char>, p: Seq<char>) -> bool {
    p.len() <= s.len() && s.subrange(0, p.len() as int) == p
}

pub open spec fn has_suffix(s: Seq<char>, x: Seq<char>) -> bool {
    x.len() <= s.len() && s.subrange(s.len() - x.len(), s.len() as int) == x
}

/// A directory entry is a profile source file when it carries the prefix
/// and either the `.txt` extension or no extension at all.
pub open spec fn is_cookie_filename(name: Seq<char>) -> bool {
    has_prefix(name, cookie_prefix()) && (has_suffix(name, txt_suffix()) || !name.contains('.'))
}

/// The raw profile identifier of a matching filename: the prefix is
/// stripped, and the `.txt` extension too where it is present.
pub open spec fn cookie_profile_id(name: Seq<char>) -> Seq<char> {
    if has_suffix(name, txt_suffix()) {
        name.subrange(cookie_prefix().len() as int, name.len() - txt_suffix().len())
    } else {
        name.subrange(cookie_prefix().len() as int, name.len() as int)
    }
}

/// A filename carrying both the prefix and the `.txt` extension is long
/// enough to hold them side by side: a shorter one would need a `.` among
/// the prefix characters.
pub proof fn lemma_cookie_min_len(name: Seq<char>)
    requires
        has_prefix(name, cookie_prefix()),
        has_suffix(name, txt_suffix()),
    ensures
        name.len() >= cookie_prefix().len() + txt_suffix().len(),
{
    reveal_strlit("cookies_");
    reveal_strlit(".txt");
    if name.len() < 12 {
        let k = name.len() - 4;
        assert(name.subrange(name.len() - 4, name.len() as int)[0] == name[k]);
        assert(name[k] == '.');
        assert(name.subrange(0, 8)[k] == name[k]);
        assert(cookie_prefix()[k] == '.');
        assert(4 <= k < 8);
        assert(false);
    }
}

fn chars_has_prefix(s: &Vec<char>, p: &Vec<char>) -> (r: bool)
    ensures
        r == has_prefix(s@, p@),
{
    if p.len() > s.len() {
        return false;
    }
    let mut i: usize = 0;
    while i < p.len()
        invariant
            i <= p@.len() <= s@.len(),
            forall|k: int| 0 <= k < i ==> s@[k] == p@[k],
        decreases p@.len() - i,
    {
        if s[i] != p[i] {
            proof {
                assert(s@.subrange(0, p@.len() as int)[i as int] == s@[i as int]);
            }
            return false;
        }
        i += 1;
    }
    proof {
        assert(s@.subrange(0, p@.len() as int) =~= p@);
    }
    true
}

fn chars_has_suffix(s: &Vec<char>, x: &Vec<char>) -> (r: bool)
    ensures
        r == has_suffix(s@, x@),
{
    if x.len() > s.len() {
        return false;
    }
    let off: usize = s.len() - x.len();
    let mut i: usize = 0;
    while i < x.len()
        invariant
            i <= x@.len() <= s@.len() <= usize::MAX,
            off == s@.len() - x@.len(),
            forall|k: int| 0 <= k < i ==> s@[off + k] == x@[k],
        decreases x@.len() - i,
    {
        proof {
            assert(off + i < s@.len());
        }
        let pos = off + i;
        if s[pos] != x[i] {
            proof {
                assert(s@.subrange(s@.len() - x@.len(), s@.len() as int)[i as int] == s@[
                    off + i
                ]);
            }
            return false;
        }
        i += 1;
    }
    proof {
        assert(s@.subrange(s@.len() - x@.len(), s@.len() as int) =~= x@);
    }
    true
}

fn chars_contains(s: &Vec<char>, c: char) -> (r: bool)
    ensures
        r == s@.contains(c),
{
    let mut i: usize = 0;
    while i < s.len()
        invariant
            i <= s@.len(),
            forall|k: int| 0 <= k < i ==> s@[k] != c,
        decreases s@.len() - i,
    {
        if s[i] == c {
            return true;
        }
        i += 1;
    }
    false
}

/// Does this filename follow the cookie-file naming convention?
pub fn matches_convention(name: &Vec<char>) -> (r: bool)
    ensures
        r == is_cookie_filename(name@),
{
    let prefix = str_to_chars("cookies_");
    let suffix = str_to_chars(".txt");
    if !chars_has_prefix(name, &prefix) {
        return false;
    }
    if chars_has_suffix(name, &suffix) {
        return true;
    }
    !chars_contains(name, '.')
}

/// The raw identifier of a filename that follows the convention.
pub fn extract_profile_id(name: &Vec<char>) -> (r: Vec<char>)
    requires
        is_cookie_filename(name@),
    ensures
        r@ == cookie_profile_id(name@),
{
    let suffix = str_to_chars(".txt");
    let stripped = chars_has_suffix(name, &suffix);
    proof {
        reveal_strlit("cookies_");
        reveal_strlit(".txt");
        if has_suffix(name@, txt_suffix()) {
            lemma_cookie_min_len(name@);
        }
    }
    let end: usize = if stripped {
        name.len() - 4
    } else {
        name.len()
    };
    let mut r: Vec<char> = Vec::new();
    let mut i: usize = 8;
    while i < end
        invariant
            8 <= i <= end <= name@.len(),
            r@ == name@.subrange(8, i as int),
        decreases end - i,
    {
        let c = name[i];
        r.push(c);
        proof {
            assert(r@ =~= name@.subrange(8, i as int + 1));
        }
        i += 1;
    }
    r
}

/// The characters on which an identifier is split into words.
pub open spec fn is_word_sep(c: char) -> bool {
    c == '_' || c == '-' || c == ' '
}

/// The end of the word that starts at `i`: the first position at or after
/// `i` holding a separator, or the end of the sequence.
pub open spec fn word_end(s: Seq<char>, i: int) -> int
    decreases s.len() - i
        when 0 <= i <= s.len()
{
    if i >= s.len() || is_word_sep(s[i]) {
        i
    } else {
        word_end(s, i + 1)
    }
}

pub proof fn lemma_word_end_bounds(s: Seq<char>, i: int)
    requires
        0 <= i <= s.len(),
    ensures
        i <= word_end(s, i) <= s.len(),
        forall|k: int| i <= k < word_end(s, i) ==> !is_word_sep(s[k]),
        word_end(s, i) < s.len() ==> is_word_sep(s[word_end(s, i)]),
    decreases s.len() - i,
{
    if i >= s.len() || is_word_sep(s[i]) {
    } else {
        lemma_word_end_bounds(s, i + 1);
    }
}

pub proof fn lemma_word_end_agrees(s: Seq<char>, i: int, j: int)
    requires
        0 <= i <= j <= s.len(),
        forall|k: int| i <= k < j ==> !is_word_sep(s[k]),
        j == s.len() || is_word_sep(s[j]),
    ensures
        word_end(s, i) == j,
    decreases j - i,
{
    if i == j {
    } else {
        lemma_word_end_agrees(s, i + 1, j);
    }
}

/// The words of `s`, in order: maximal runs of non-separator characters.
pub open spec fn tokens_from(s: Seq<char>, i: int) -> Seq<Seq<char>>
    decreases s.len() - i
        when 0 <= i <= s.len()
        via tokens_from_dec
{
    if i >= s.len() {
        Seq::empty()
    } else if is_word_sep(s[i]) {
        tokens_from(s, i + 1)
    } else {
        seq![s.subrange(i, word_end(s, i))] + tokens_from(s, word_end(s, i))
    }
}

#[via_fn]
proof fn tokens_from_dec(s: Seq<char>, i: int) {
    if 0 <= i && i < s.len() && !is_word_sep(s[i]) {
        lemma_word_end_bounds(s, i + 1);
        assert(word_end(s, i) == word_end(s, i + 1));
    }
}

pub open spec fn tokens(s: Seq<char>) -> Seq<Seq<char>> {
    tokens_from(s, 0)
}

/// A word in title case: the uppercase mapping of its first character,
/// then the lowercase mapping of the rest.
pub open spec fn title_word(w: Seq<char>) -> Seq<char> {
    char_upper_of(w[0]) + lower_of(w.drop_first())
}

/// Title-cased words joined by single spaces.
pub open spec fn join_titled(ws: Seq<Seq<char>>) -> Seq<char>
    decreases ws.len(),
{
    if ws.len() == 0 {
        Seq::empty()
    } else if ws.len() == 1 {
        title_word(ws[0])
    } else {
        join_titled(ws.drop_last()) + seq![' '] + title_word(ws.last())
    }
}

/// The display name derived from a raw identifier.
pub open spec fn spec_format(s: Seq<char>) -> Seq<char> {
    join_titled(tokens(s))
}

/// Title-case each word of the identifier and join the words with single
/// spaces; separators are `_`, `-` and the space itself.
pub fn format_id_chars(s: &Vec<char>) -> (r: Vec<char>)
    ensures
        r@ == spec_format(s@),
{
    let ghost sq = s@;
    let mut out: Vec<char> = Vec::new();
    let ghost mut ts = Seq::<Seq<char>>::empty();
    let mut i: usize = 0;
    proof {
        assert(tokens(sq) =~= ts + tokens_from(sq, 0));
    }
    while i < s.len()
        invariant
            sq == s@,
            i <= sq.len(),
            tokens(sq) == ts + tokens_from(sq, i as int),
            out@ == join_titled(ts),
            ts.len() == 0 ==> out@.len() == 0,
            ts.len() > 0 ==> out@.len() >= 1,
        decreases sq.len() - i,
    {
        let c = s[i];
        if c == '_' || c == '-' || c == ' ' {
            proof {
                assert(tokens_from(sq, i as int) == tokens_from(sq, i as int + 1));
            }
            i += 1;
        } else {
            let mut j: usize = i + 1;
            while j < s.len() && !(s[j] == '_' || s[j] == '-' || s[j] == ' ')
                invariant
                    sq == s@,
                    i < j <= sq.len(),
                    forall|k: int| i <= k < j ==> !is_word_sep(sq[k]),
                    !is_word_sep(sq[i as int]),
                decreases sq.len() - j,
            {
                j += 1;
            }
            proof {
                lemma_word_end_agrees(sq, i as int, j as int);
            }
            let first = s[i];
            let upper = upper_char(first);
            let mut tail: Vec<char> = Vec::new();
            let mut k: usize = i + 1;
            while k < j
                invariant
                    sq == s@,
                    i + 1 <= k <= j <= sq.len(),
                    tail@ == sq.subrange(i as int + 1, k as int),
                decreases j - k,
            {
                let c2 = s[k];
                tail.push(c2);
                proof {
                    assert(tail@ =~= sq.subrange(i as int + 1, k as int + 1));
                }
                k += 1;
            }
            let low = lower_chars(&tail);
            let ghost wseq = sq.subrange(i as int, j as int);
            let ghost old_out = out@;
            let ghost old_ts = ts;
            if !out.is_empty() {
                out.push(' ');
            }
            append_chars(&mut out, &upper);
            append_chars(&mut out, &low);
            proof {
                assert(wseq[0] == sq[i as int]);
                assert(wseq.drop_first() =~= sq.subrange(i as int + 1, j as int));
                assert(title_word(wseq) == char_upper_of(sq[i as int]) + lower_of(
                    sq.subrange(i as int + 1, j as int),
                ));
                ts = old_ts.push(wseq);
                assert(ts.drop_last() =~= old_ts);
                assert(ts.last() == wseq);
                if old_ts.len() == 0 {
                    assert(ts.len() == 1);
                    assert(ts[0] == wseq);
                    assert(out@ =~= title_word(wseq));
                } else {
                    assert(join_titled(ts) == join_titled(old_ts) + seq![' '] + title_word(
                        wseq,
                    ));
                    assert(out@ =~= join_titled(old_ts) + seq![' '] + title_word(wseq));
                }
                assert(tokens_from(sq, i as int) == seq![wseq] + tokens_from(sq, j as int));
                assert(old_ts + tokens_from(sq, i as int) =~= ts + tokens_from(sq, j as int));
            }
            i = j;
        }
    }
    proof {
        assert(tokens_from(sq, sq.len() as int) =~= Seq::<Seq<char>>::empty());
        assert(tokens(sq) =~= ts);
        assert(out@ == spec_format(sq));
    }
    out
}

/// Derive the human-facing display name from a raw profile identifier.
pub fn format_profile_name(name: &str) -> (r: String)
    ensures
        r@ == spec_format(name@),
{
    let chars = str_to_chars(name);
    let formatted = format_id_chars(&chars);
    string_from_chars(&formatted)
}

/// A word that title-casing leaves unchanged: its first character is its
/// own uppercase mapping and its remainder its own lowercase mapping.
pub open spec fn word_self_titled(w: Seq<char>) -> bool {
    w.len() >= 1 && char_upper_of(w[0]) == seq![w[0]] && lower_of(w.drop_first())
        == w.drop_first()
}

/// Words joined by single spaces, unchanged.
pub open spec fn join_plain(ws: Seq<Seq<char>>) -> Seq<char>
    decreases ws.len(),
{
    if ws.len() == 0 {
        Seq::empty()
    } else if ws.len() == 1 {
        ws[0]
    } else {
        join_plain(ws.drop_last()) + seq![' '] + ws.last()
    }
}

/// An already-title-cased, space-separated name: it is exactly its own
/// words joined by single spaces, and each word is left unchanged by
/// title-casing.
pub open spec fn is_title_cased(s: Seq<char>) -> bool {
    s == join_plain(tokens(s)) && (forall|k: int|
        0 <= k < tokens(s).len() ==> word_self_titled(#[trigger] tokens(s)[k]))
}

proof fn lemma_join_titled_plain(ws: Seq<Seq<char>>)
    requires
        forall|k: int| 0 <= k < ws.len() ==> word_self_titled(#[trigger] ws[k]),
    ensures
        join_titled(ws) == join_plain(ws),
    decreases ws.len(),
{
    if ws.len() == 0 {
    } else if ws.len() == 1 {
        assert(word_self_titled(ws[0]));
        assert(title_word(ws[0]) =~= ws[0]);
    } else {
        assert(forall|k: int|
            0 <= k < ws.drop_last().len() ==> word_self_titled(#[trigger] ws.drop_last()[k]));
        lemma_join_titled_plain(ws.drop_last());
        assert(word_self_titled(ws.last()));
        assert(title_word(ws.last()) =~= ws.last());
    }
}

/// Law: formatting is idempotent on an already-title-cased,
/// space-separated name.
pub proof fn lemma_format_idempotent(s: Seq<char>)
    ensures
        is_title_cased(s) ==> spec_format(s) == s,
{
    if is_title_cased(s) {
        lemma_join_titled_plain(tokens(s));
    }
}

/// The fixed, ordered palette of decorative icons.
pub open spec fn emoji_palette() -> Seq<Seq<char>> {
    seq!["🦆"@, "🐱"@, "🐶"@, "🐸"@, "🐨"@, "🦊"@, "🐰"@, "🐼"@, "🦁"@, "🐯"@]
}

/// The decorative icon assigned to the profile at position `i` of the
/// sorted list: the palette is indexed cyclically, so the assignment is a
/// function of the position alone.
pub open spec fn spec_emoji(i: nat) -> Seq<char> {
    emoji_palette()[(i % 10) as int]
}

pub fn profile_emoji(index: usize) -> (r: &'static str)
    ensures
        r@ == spec_emoji(index as nat),
{
    let k = index % 10;
    if k == 0 {
        "🦆"
    } else if k == 1 {
        "🐱"
    } else if k == 2 {
        "🐶"
    } else if k == 3 {
        "🐸"
    } else if k == 4 {
        "🐨"
    } else if k == 5 {
        "🦊"
    } else if k == 6 {
        "🐰"
    } else if k == 7 {
        "🐼"
    } else if k == 8 {
        "🦁"
    } else {
        "🐯"
    }
}

/// Law: the icon assignment cycles with the palette size, so it depends on
/// the position alone and repeats every ten positions.
pub proof fn lemma_emoji_cycles(i: nat)
    ensures
        spec_emoji(i + 10) == spec_emoji(i),
{
    assert((i + 10) % 10 == i % 10);
}

/// The conventional avatar filename for an identifier: the lowercased
/// identifier with a `.png` extension.
pub open spec fn avatar_filename(id: Seq<char>) -> Seq<char> {
    lower_of(id) + ".png"@
}

pub fn avatar_file_for(id: &Vec<char>) -> (r: Vec<char>)
    ensures
        r@ == avatar_filename(id@),
{
    let mut r = lower_chars(id);
    let ext = str_to_chars(".png");
    append_chars(&mut r, &ext);
    r
}

} // verus!
