//! Automatic session titles: from the user messages of a session, pick the
//! first substantive one, strip a conversational opener, keep the first
//! line and sentence, shorten to 60 characters and capitalize.

use vstd::prelude::*;
use vstd::utf8::encode_utf8;
use crate::pattern::{regex_is_match, regex_replace};
use crate::text::{
    chars_of, concat_chars, first_pos, find_char, is_ws, lowercase_text, skip_chars, slice_chars,
    starts_with, has_prefix, str_lowercase, string_of, trim, trim_chars, trim_end, trim_start,
};

verus! {

/// The greeting words of a greeting-only message.
pub open spec fn greeting_words() -> Seq<Seq<char>> {
    seq!["hey"@, "hello"@, "hi"@, "morning"@, "good morning"@, "howdy"@, "yo"@, "sup"@]
}

/// Characters allowed after a greeting word.
pub open spec fn greeting_tail(c: char) -> bool {
    is_ws(c) || c == '!' || c == '.' || c == ':' || c == ','
}

/// The whole text is a greeting word followed only by white space and
/// `! . : ,` (the pattern `^(hey|hello|hi|morning|good morning|howdy|yo|sup)[\s!.:,]*$`).
pub open spec fn is_greeting(t: Seq<char>) -> bool {
    exists|k: int| 0 <= k < 8 && starts_with(t, #[trigger] greeting_words()[k])
        && forall|j: int| greeting_words()[k].len() <= j < t.len() ==> greeting_tail(t[j])
}

/// The pattern of a greeting-only message (see [`is_greeting`]).
pub const GREETING_PATTERN: &'static str = "^(hey|hello|hi|morning|good morning|howdy|yo|sup)[\\s!.:,]*$";

/// The pattern of a leading conversational opener and the white space
/// after it, any case (see [`opener_removed`]).
pub const OPENER_PATTERN: &'static str = "(?i)^(ok|okay|so|actually|hey|please|can you|could you|i want(?:ed)? to|i wanna|let'?s)\\s+";

/// The conversational openers, in lower case.
pub open spec fn opener_words() -> Seq<Seq<char>> {
    seq![
        "ok"@, "okay"@, "so"@, "actually"@, "hey"@, "please"@, "can you"@, "could you"@, "i want to"@,
        "i wanted to"@, "i wanna"@, "lets"@, "let's"@,
    ]
}

/// `c` matches the pattern character `p` ignoring case, as the `(?i)` of
/// the regex crate does (Unicode simple case folding: beside the capital,
/// `k` also matches the Kelvin sign and `s` the long s).
pub open spec fn folds_to(c: char, p: char) -> bool {
    ||| c == p
    ||| ('a' <= p <= 'z' && c as u32 == (p as u32) - 32)
    ||| (p == 'k' && c as u32 == 0x212A)
    ||| (p == 's' && c as u32 == 0x17F)
}

/// `t` starts with `w`, ignoring case.
pub open spec fn starts_folded(t: Seq<char>, w: Seq<char>) -> bool {
    w.len() <= t.len() && forall|i: int| 0 <= i < w.len() ==> folds_to(#[trigger] t[i], w[i])
}

/// The end of the run of white space starting at `i`.
pub open spec fn ws_end(t: Seq<char>, i: int) -> int
    decreases t.len() - i,
{
    if 0 <= i < t.len() && is_ws(t[i]) {
        ws_end(t, i + 1)
    } else {
        i
    }
}

/// `t` starts with opener `k` followed by white space.
pub open spec fn opener_at(t: Seq<char>, k: int) -> bool {
    &&& 0 <= k < opener_words().len()
    &&& starts_folded(t, opener_words()[k])
    &&& opener_words()[k].len() < t.len()
    &&& is_ws(t[opener_words()[k].len() as int])
}

/// The text without a leading conversational opener and the white space
/// after it; the text itself when it starts with none.
pub open spec fn opener_removed(t: Seq<char>) -> Seq<char> {
    if exists|k: int| opener_at(t, k) {
        let k = choose|k: int| opener_at(t, k);
        t.skip(ws_end(t, opener_words()[k].len() as int))
    } else {
        t
    }
}

/// The upper-case form of a non-ASCII character (possibly several
/// characters).
pub uninterp spec fn upper_text(c: char) -> Seq<char>;

/// The upper-case form of a character: ASCII letters become capitals,
/// other ASCII characters stay; others as [`upper_text`].
pub open spec fn upper_of(c: char) -> Seq<char> {
    if 'a' <= c <= 'z' {
        seq![((c as u32) - 32) as char]
    } else if (c as u32) < 128 {
        seq![c]
    } else {
        upper_text(c)
    }
}

/// `char::to_uppercase`, collected. std documents that ASCII letters map
/// to their capital and other ASCII characters to themselves; what other
/// characters become is only named.
#[verifier::external_body]
fn char_upper(c: char) -> (r: String)
    ensures
        r@ == upper_of(c),
        (c as u32) >= 128 ==> r@ == upper_text(c),
{
    c.to_uppercase().collect()
}

/// A candidate worth naming a session after: not blank, not a greeting,
/// not a memory/seed instruction, at least 10 bytes once trimmed.
pub open spec fn is_substantive(m: Seq<char>) -> bool {
    let t = trim(m);
    &&& t.len() > 0
    &&& !is_greeting(t)
    &&& !starts_with(lowercase_text(t), "read your memory"@)
    &&& !starts_with(lowercase_text(t), "read your seed"@)
    &&& encode_utf8(t).len() >= 10
}

/// Index of the first substantive message from `i` on (`msgs.len()` if none).
pub open spec fn first_substantive(msgs: Seq<Seq<char>>, i: int) -> int
    decreases msgs.len() - i,
{
    if i >= msgs.len() {
        msgs.len() as int
    } else if is_substantive(msgs[i]) {
        i
    } else {
        first_substantive(msgs, i + 1)
    }
}

/// The first line of `s` as `str::lines` yields it (a `\r` before the `\n`
/// is dropped; an empty text is its own first line).
pub open spec fn first_line(s: Seq<char>) -> Seq<char> {
    let e = first_pos(s, '\n');
    let l = s.subrange(0, e);
    if e < s.len() && l.len() > 0 && l.last() == '\r' {
        l.drop_last()
    } else {
        l
    }
}

/// A sentence end.
pub open spec fn is_stop(c: char) -> bool {
    c == '.' || c == '!' || c == '?'
}

/// Index of the first sentence end at or after `i` (`s.len()` if none).
pub open spec fn stop_from(s: Seq<char>, i: int) -> int
    decreases s.len() - i,
{
    if i >= s.len() {
        s.len() as int
    } else if is_stop(s[i]) {
        i
    } else {
        stop_from(s, i + 1)
    }
}

/// Index of the last space in `s` (`s.len()` if none).
pub open spec fn last_space(s: Seq<char>) -> int
    decreases s.len(),
{
    if s.len() == 0 {
        0
    } else if s.last() == ' ' {
        s.len() - 1
    } else if last_space(s.drop_last()) < s.len() - 1 {
        last_space(s.drop_last())
    } else {
        s.len() as int
    }
}

/// The title made from one message text.
pub open spec fn title_of(text: Seq<char>) -> Option<Seq<char>> {
    let fl = first_line(opener_removed(trim(text)));
    let start = if fl.len() < 10 { fl.len() as int } else { 10 };
    let p = stop_from(fl, start);
    let t1 = if p < fl.len() { fl.subrange(0, p + 1) } else { fl };
    let t2 = if t1.len() > 60 {
        let tr = t1.subrange(0, 57);
        tr.subrange(0, last_space(tr)).push('…')
    } else {
        t1
    };
    if t2.len() == 0 {
        None
    } else {
        Some(upper_of(t2[0]) + t2.drop_first())
    }
}

/// The title for a session's candidate messages: made from the first
/// substantive one, else from the first one; none without messages.
pub open spec fn session_title(msgs: Seq<Seq<char>>) -> Option<Seq<char>> {
    let i = first_substantive(msgs, 0);
    if i < msgs.len() {
        title_of(msgs[i])
    } else if msgs.len() > 0 {
        title_of(msgs[0])
    } else {
        None
    }
}

fn substantive(m: &str) -> (r: bool)
    ensures
        r == is_substantive(m@),
{
    let t = trim_chars(&chars_of(m));
    if t.len() == 0 {
        return false;
    }
    let ts = string_of(&t);
    match regex_is_match(GREETING_PATTERN, ts.as_str()) {
        Some(true) => {
            return false;
        },
        _ => {},
    }
    let low = chars_of(str_lowercase(ts.as_str()).as_str());
    if has_prefix(&low, &chars_of("read your memory")) || has_prefix(&low, &chars_of("read your seed")) {
        return false;
    }
    ts.as_str().as_bytes().len() >= 10
}

fn first_line_chars(s: &[char]) -> (r: Vec<char>)
    ensures
        r@ == first_line(s@),
{
    let e = find_char(s, '\n');
    let l = slice_chars(s, 0, e);
    if e < s.len() && l.len() > 0 && l[l.len() - 1] == '\r' {
        let r = slice_chars(&l, 0, l.len() - 1);
        assert(r@ =~= l@.drop_last());
        r
    } else {
        l
    }
}

fn stop_index(s: &[char], i: usize) -> (r: usize)
    requires
        i <= s@.len(),
    ensures
        r as int == stop_from(s@, i as int),
        i <= r <= s@.len(),
{
    let mut k = i;
    while k < s.len() && !(s[k] == '.' || s[k] == '!' || s[k] == '?')
        invariant
            i <= k <= s@.len(),
            stop_from(s@, i as int) == stop_from(s@, k as int),
        decreases s.len() - k,
    {
        k = k + 1;
    }
    k
}

fn last_space_index(s: &[char]) -> (r: usize)
    ensures
        r as int == last_space(s@),
{
    let mut k = s.len();
    while k > 0 && s[k - 1] != ' '
        invariant
            k <= s@.len(),
            forall|j: int| k <= j < s@.len() ==> s@[j] != ' ',
        decreases k,
    {
        k = k - 1;
    }
    proof {
        lemma_last_space(s@, k as int);
    }
    if k == 0 { s.len() } else { k - 1 }
}

proof fn lemma_last_space(s: Seq<char>, k: int)
    requires
        0 <= k <= s.len(),
        forall|j: int| k <= j < s.len() ==> s[j] != ' ',
        k == 0 || s[k - 1] == ' ',
    ensures
        last_space(s) == if k == 0 { s.len() as int } else { k - 1 },
    decreases s.len(),
{
    if s.len() > 0 && s.last() != ' ' {
        let t = s.drop_last();
        if k == s.len() {
            assert(false);
        } else {
            lemma_last_space(t, k);
        }
    }
}

/// Every character is ASCII.
pub open spec fn all_ascii(s: Seq<char>) -> bool {
    forall|i: int| 0 <= i < s.len() ==> (#[trigger] s[i] as u32) < 128
}

proof fn lemma_trim_start_shape(s: Seq<char>)
    ensures
        trim_start(s).len() <= s.len(),
        trim_start(s) == s.subrange(s.len() - trim_start(s).len(), s.len() as int),
        trim_start(s).len() > 0 ==> !is_ws(trim_start(s)[0]),
    decreases s.len(),
{
    if s.len() > 0 && is_ws(s[0]) {
        lemma_trim_start_shape(s.drop_first());
        let t = trim_start(s.drop_first());
        assert(s.drop_first().subrange(s.len() - 1 - t.len(), s.len() - 1) =~= s.subrange(s.len() - t.len(), s.len() as int));
    } else {
        assert(s.subrange(0, s.len() as int) =~= s);
    }
}

proof fn lemma_trim_end_shape(s: Seq<char>)
    ensures
        trim_end(s).len() <= s.len(),
        trim_end(s) == s.subrange(0, trim_end(s).len() as int),
    decreases s.len(),
{
    if s.len() > 0 && is_ws(s.last()) {
        lemma_trim_end_shape(s.drop_last());
        let t = trim_end(s.drop_last());
        assert(s.drop_last().subrange(0, t.len() as int) =~= s.subrange(0, t.len() as int));
    } else {
        assert(s.subrange(0, s.len() as int) =~= s);
    }
}

proof fn lemma_ws_end(t: Seq<char>, i: int)
    requires
        0 <= i <= t.len(),
    ensures
        i <= ws_end(t, i) <= t.len(),
        ws_end(t, i) < t.len() ==> !is_ws(t[ws_end(t, i)]),
    decreases t.len() - i,
{
    if i < t.len() && is_ws(t[i]) {
        lemma_ws_end(t, i + 1);
    }
}

proof fn lemma_first_pos_range(s: Seq<char>, c: char)
    ensures
        0 <= first_pos(s, c) <= s.len(),
    decreases s.len(),
{
    if s.len() > 0 && s[0] != c {
        lemma_first_pos_range(s.drop_first(), c);
    }
}

proof fn lemma_stop_range(s: Seq<char>, i: int)
    requires
        0 <= i <= s.len(),
    ensures
        i <= stop_from(s, i) <= s.len(),
    decreases s.len() - i,
{
    if i < s.len() && !is_stop(s[i]) {
        lemma_stop_range(s, i + 1);
    }
}

proof fn lemma_last_space_shape(s: Seq<char>)
    ensures
        0 <= last_space(s) <= s.len(),
        last_space(s) < s.len() ==> s[last_space(s)] == ' ',
    decreases s.len(),
{
    if s.len() > 0 && s.last() != ' ' {
        lemma_last_space_shape(s.drop_last());
    }
}

/// Without a leading opener, the text still starts with what the trimmed
/// text allows: it is a suffix of it, and its first character is not white
/// space.
proof fn lemma_opener_removed_shape(u: Seq<char>)
    requires
        u.len() > 0 ==> !is_ws(u[0]),
    ensures
        opener_removed(u).len() <= u.len(),
        opener_removed(u) == u.subrange(u.len() - opener_removed(u).len(), u.len() as int),
        opener_removed(u).len() > 0 ==> !is_ws(opener_removed(u)[0]),
{
    if exists|k: int| opener_at(u, k) {
        let k = choose|k: int| opener_at(u, k);
        let w = opener_words()[k].len() as int;
        lemma_ws_end(u, w);
        let j = ws_end(u, w);
        assert(u.skip(j) =~= u.subrange(j, u.len() as int));
    } else {
        assert(u.subrange(0, u.len() as int) =~= u);
    }
}

/// For ASCII text a title, when there is one, is at most 60 characters
/// long and does not start with a lower-case letter.
pub proof fn lemma_title_shape(text: Seq<char>)
    requires
        all_ascii(text),
    ensures
        title_of(text) matches Some(t) ==> 0 < t.len() <= 60 && !('a' <= t[0] <= 'z'),
{
    let u0 = trim_start(text);
    lemma_trim_start_shape(text);
    lemma_trim_end_shape(u0);
    let u = trim(text);
    assert(all_ascii(u)) by {
        assert forall|i: int| 0 <= i < u.len() implies (#[trigger] u[i] as u32) < 128 by {
            assert(u[i] == u0[i]);
            assert(u0[i] == text[text.len() - u0.len() + i]);
        }
    }
    if u.len() > 0 {
        assert(u[0] == u0[0]);
    }
    lemma_opener_removed_shape(u);
    let v = opener_removed(u);
    assert(all_ascii(v)) by {
        assert forall|i: int| 0 <= i < v.len() implies (#[trigger] v[i] as u32) < 128 by {
            assert(v[i] == u[u.len() - v.len() + i]);
        }
    }
    lemma_first_pos_range(v, '\n');
    let fl = first_line(v);
    let e = first_pos(v, '\n');
    let l = v.subrange(0, e);
    assert(fl.len() <= v.len());
    assert(forall|i: int| 0 <= i < fl.len() ==> #[trigger] fl[i] == v[i]);
    let start = if fl.len() < 10 { fl.len() as int } else { 10 };
    lemma_stop_range(fl, start);
    let p = stop_from(fl, start);
    let t1 = if p < fl.len() { fl.subrange(0, p + 1) } else { fl };
    assert(t1.len() <= fl.len());
    assert(forall|i: int| 0 <= i < t1.len() ==> #[trigger] t1[i] == fl[i]);
    if t1.len() > 60 {
        let tr = t1.subrange(0, 57);
        lemma_last_space_shape(tr);
        let cut = last_space(tr);
        assert(tr[0] == v[0]);
        assert(!is_ws(v[0]));
        assert(cut != 0) by {
            if cut == 0 {
                assert(tr[0] == ' ');
            }
        }
        let t2 = tr.subrange(0, cut).push('…');
        assert(t2[0] == v[0]);
        assert(t2.len() <= 58);
        assert((v[0] as u32) < 128);
        assert(title_of(text) == Some(upper_of(t2[0]) + t2.drop_first()));
    } else if t1.len() > 0 {
        assert(t1[0] == v[0]);
        assert((v[0] as u32) < 128);
    }
}

proof fn lemma_first_substantive_range(msgs: Seq<Seq<char>>, i: int)
    requires
        0 <= i <= msgs.len(),
    ensures
        i <= first_substantive(msgs, i) <= msgs.len(),
    decreases msgs.len() - i,
{
    if i < msgs.len() && !is_substantive(msgs[i]) {
        lemma_first_substantive_range(msgs, i + 1);
    }
}

/// For ASCII messages a session title, when there is one, is at most 60
/// characters long and does not start with a lower-case letter.
pub proof fn lemma_session_title_shape(msgs: Seq<Seq<char>>)
    requires
        forall|k: int| 0 <= k < msgs.len() ==> all_ascii(#[trigger] msgs[k]),
    ensures
        session_title(msgs) matches Some(t) ==> 0 < t.len() <= 60 && !('a' <= t[0] <= 'z'),
{
    lemma_first_substantive_range(msgs, 0);
    let i = first_substantive(msgs, 0);
    if i < msgs.len() {
        lemma_title_shape(msgs[i]);
    } else if msgs.len() > 0 {
        lemma_title_shape(msgs[0]);
    }
}

/// A greeting-only message (a greeting word followed by nothing but white
/// space and `! . : ,`) is never substantive.
pub proof fn lemma_substantive_not_greeting(m: Seq<char>)
    ensures
        is_substantive(m) ==> !is_greeting(trim(m)),
{
}

/// The greetings of the pattern: each of its words followed by any run of
/// white space and `! . : ,` is a greeting.
pub proof fn lemma_greeting_examples(w: int, tail: Seq<char>)
    requires
        0 <= w < 8,
        forall|j: int| 0 <= j < tail.len() ==> greeting_tail(#[trigger] tail[j]),
    ensures
        is_greeting(seq!["hey"@, "hello"@, "hi"@, "morning"@, "good morning"@, "howdy"@, "yo"@, "sup"@][w] + tail),
{
    let words = seq!["hey"@, "hello"@, "hi"@, "morning"@, "good morning"@, "howdy"@, "yo"@, "sup"@];
    assert(words =~= greeting_words());
    let t = words[w] + tail;
    assert(t.subrange(0, words[w].len() as int) =~= words[w]);
    assert forall|j: int| greeting_words()[w].len() <= j < t.len() implies greeting_tail(t[j]) by {
        assert(t[j] == tail[j - words[w].len()]);
    }
    assert(starts_with(t, greeting_words()[w]));
}

/// A session title never comes from a greeting-only message while some
/// message is substantive: it is then made from a message that is not a
/// greeting, the first substantive one.
pub proof fn lemma_title_skips_greetings(msgs: Seq<Seq<char>>, k: int)
    requires
        0 <= k < msgs.len(),
        is_substantive(msgs[k]),
    ensures
        exists|i: int| 0 <= i <= k && !is_greeting(trim(#[trigger] msgs[i]))
            && session_title(msgs) == title_of(msgs[i])
            && forall|j: int| 0 <= j < i ==> !is_substantive(#[trigger] msgs[j]),
{
    lemma_first_substantive_upto(msgs, 0, k);
    let i = first_substantive(msgs, 0);
    lemma_substantive_not_greeting(msgs[i]);
    assert(session_title(msgs) == title_of(msgs[i]));
}

proof fn lemma_first_substantive_upto(msgs: Seq<Seq<char>>, i: int, k: int)
    requires
        0 <= i <= k < msgs.len(),
        is_substantive(msgs[k]),
        forall|j: int| 0 <= j < i ==> !is_substantive(#[trigger] msgs[j]),
    ensures
        0 <= first_substantive(msgs, i) <= k,
        is_substantive(msgs[first_substantive(msgs, i)]),
        forall|j: int| 0 <= j < first_substantive(msgs, i) ==> !is_substantive(#[trigger] msgs[j]),
    decreases k - i,
{
    if !is_substantive(msgs[i]) {
        lemma_first_substantive_upto(msgs, i + 1, k);
    }
}

fn title_from(text: &str) -> (r: Option<String>)
    ensures
        crate::rpc::opt_view(r) == title_of(text@),
{
    let t = trim_chars(&chars_of(text));
    let trimmed = string_of(&t);
    proof {
        reveal_strlit("");
    }
    let cleaned = match regex_replace(OPENER_PATTERN, trimmed.as_str(), "") {
        Some(c) => c,
        None => trimmed,
    };
    let fl = first_line_chars(&chars_of(cleaned.as_str()));
    let start = if fl.len() < 10 { fl.len() } else { 10 };
    let p = stop_index(&fl, start);
    let t1 = if p < fl.len() { slice_chars(&fl, 0, p + 1) } else { slice_chars(&fl, 0, fl.len()) };
    assert(fl@.subrange(0, fl@.len() as int) =~= fl@);
    let t2 = if t1.len() > 60 {
        let tr = slice_chars(&t1, 0, 57);
        let cut = last_space_index(&tr);
        let mut head = slice_chars(&tr, 0, cut);
        head.push('…');
        head
    } else {
        t1
    };
    if t2.len() == 0 {
        return None;
    }
    let first = char_upper(t2[0]);
    let rest = skip_chars(&t2, 1);
    assert(rest@ =~= t2@.drop_first());
    Some(string_of(&concat_chars(&chars_of(first.as_str()), &rest)))
}

/// A session title from the captured user messages (see [`session_title`]).
pub fn generate_session_title(messages: &[String]) -> (r: Option<String>)
    ensures
        crate::rpc::opt_view(r) == session_title(messages@.map_values(|m: String| m@)),
        messages@.len() == 0 ==> r is None,
        (forall|k: int| 0 <= k < messages@.len() ==> all_ascii(#[trigger] messages@[k]@)) ==> (r matches Some(t)
            ==> 0 < t@.len() <= 60 && !('a' <= t@[0] <= 'z')),
{
    proof {
        let msgs = messages@.map_values(|m: String| m@);
        if forall|k: int| 0 <= k < messages@.len() ==> all_ascii(#[trigger] messages@[k]@) {
            assert forall|k: int| 0 <= k < msgs.len() implies all_ascii(#[trigger] msgs[k]) by {
                assert(msgs[k] == messages@[k]@);
            }
            lemma_session_title_shape(msgs);
        }
    }
    let ghost msgs = messages@.map_values(|m: String| m@);
    let n = messages.len();
    let mut i: usize = 0;
    while i < n && !substantive(messages[i].as_str())
        invariant
            n == messages@.len(),
            msgs == messages@.map_values(|m: String| m@),
            0 <= i <= n,
            first_substantive(msgs, 0) == first_substantive(msgs, i as int),
        decreases n - i,
    {
        i = i + 1;
    }
    if i < n {
        title_from(messages[i].as_str())
    } else if n > 0 {
        title_from(messages[0].as_str())
    } else {
        None
    }
}

/// The automatic title to store for a session, if one is due: only when no
/// title has been set, at least two turns have completed and there are
/// candidate messages.
pub fn maybe_generate(instance_id: &str, turn_count: u32, title_set: bool, candidates: &[String]) -> (r: Option<String>)
    ensures
        title_set || turn_count < 2 || candidates@.len() == 0 ==> r is None,
        !(title_set || turn_count < 2 || candidates@.len() == 0)
            ==> crate::rpc::opt_view(r) == session_title(candidates@.map_values(|m: String| m@)),
        (forall|k: int| 0 <= k < candidates@.len() ==> all_ascii(#[trigger] candidates@[k]@)) ==> (r matches Some(t)
            ==> 0 < t@.len() <= 60 && !('a' <= t@[0] <= 'z')),
{
    if title_set || turn_count < 2 || candidates.len() == 0 {
        return None;
    }
    generate_session_title(candidates)
}

} // verus!
