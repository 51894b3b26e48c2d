//! Maildir file names: the `:2,{flags}` info suffix, flag normalisation and the
//! mapping between Maildir flags and JMAP keywords.

use std::collections::BTreeSet;
use vstd::prelude::*;

use crate::text::{chars_of, push_char, push_text, same_text, string_from_range};

verus! {

// ---------------------------------------------------------------------------
// Specification
// ---------------------------------------------------------------------------

/// The six Maildir flags, in their canonical order.
pub open spec fn flag_order() -> Seq<char> {
    seq!['D', 'F', 'P', 'R', 'S', 'T']
}

/// Whether `c` is one of the six Maildir flags.
pub open spec fn is_flag(c: char) -> bool {
    c == 'D' || c == 'F' || c == 'P' || c == 'R' || c == 'S' || c == 'T'
}

/// Every character of `raw` is a Maildir flag.
pub open spec fn all_flags(raw: Seq<char>) -> bool {
    forall|i: int| 0 <= i < raw.len() ==> is_flag(#[trigger] raw[i])
}

/// `seq![f]` when `present`, the empty sequence otherwise.
pub open spec fn flag_when(present: bool, f: char) -> Seq<char> {
    if present {
        seq![f]
    } else {
        Seq::empty()
    }
}

/// The flags that occur in `raw`, each once, in canonical order; other
/// characters are ignored.
pub open spec fn normalized(raw: Seq<char>) -> Seq<char> {
    flag_when(raw.contains('D'), 'D') + flag_when(raw.contains('F'), 'F') + flag_when(
        raw.contains('P'),
        'P',
    ) + flag_when(raw.contains('R'), 'R') + flag_when(raw.contains('S'), 'S') + flag_when(
        raw.contains('T'),
        'T',
    )
}

/// The error of strict flag normalisation.
#[derive(Debug, Clone, Copy, PartialEq, Eq)]
pub enum FlagError {
    /// The character `flag` at character position `position` is not a Maildir flag.
    InvalidFlag { flag: char, position: usize },
}

/// What strict normalisation of `raw` yields: the normalised flags when every
/// character is a flag, otherwise the first character that is not, with its position.
pub open spec fn normalize_outcome(raw: Seq<char>, r: Result<String, FlagError>) -> bool {
    match r {
        Ok(s) => all_flags(raw) && s@ == normalized(raw),
        Err(FlagError::InvalidFlag { flag, position }) => {
            &&& position < raw.len()
            &&& raw[position as int] == flag
            &&& !is_flag(flag)
            &&& all_flags(raw.take(position as int))
        },
    }
}

/// The `:2,` marker that opens the info part of a Maildir file name.
pub open spec fn info_marker() -> Seq<char> {
    seq![':', '2', ',']
}

/// `s` without a leading `:2,`, if it has one.
pub open spec fn strip_info_marker(s: Seq<char>) -> Seq<char> {
    if s.len() >= 3 && s.take(3) == info_marker() {
        s.skip(3)
    } else {
        s
    }
}

/// The info suffix `:2,{flags}` for the normalised form of `flags`.
pub open spec fn info_suffix(flags: Seq<char>) -> Seq<char> {
    info_marker() + normalized(flags)
}

/// A `:2,` marker starts at position `i` of `s`.
pub open spec fn info_at(s: Seq<char>, i: int) -> bool {
    0 <= i && i + 3 <= s.len() && s[i] == ':' && s[i + 1] == '2' && s[i + 2] == ','
}

/// The position of the first `:2,` in `s` at or after `from`.
pub open spec fn first_info_from(s: Seq<char>, from: nat) -> Option<nat>
    decreases s.len() - from,
{
    if from + 3 > s.len() {
        None
    } else if info_at(s, from as int) {
        Some(from)
    } else {
        first_info_from(s, from + 1)
    }
}

/// The position of the first `c` in `s` at or after `from`.
pub open spec fn first_char_from(s: Seq<char>, c: char, from: nat) -> Option<nat>
    decreases s.len() - from,
{
    if from >= s.len() {
        None
    } else if s[from as int] == c {
        Some(from)
    } else {
        first_char_from(s, c, from + 1)
    }
}

/// The base of a file name: everything before its first `:2,`.
pub open spec fn base_of(name: Seq<char>) -> Seq<char> {
    match first_info_from(name, 0) {
        Some(p) => name.take(p as int),
        None => name,
    }
}

/// The flags of a file name: the normalised characters after its first `:2,`,
/// or none when it has no info part.
pub open spec fn flags_of(name: Seq<char>) -> Seq<char> {
    match first_info_from(name, 0) {
        Some(p) => normalized(name.skip(p + 3int)),
        None => Seq::empty(),
    }
}

/// The (timestamp, uniquifier, flags) of a Maildir file name: the base is split
/// at its first `.`, and both halves must be non-empty.
pub open spec fn parsed_filename(name: Seq<char>) -> Option<(Seq<char>, Seq<char>, Seq<char>)> {
    let base = base_of(name);
    match first_char_from(base, '.', 0) {
        Some(d) => {
            let timestamp = base.take(d as int);
            let uniquifier = base.skip(d + 1int);
            if timestamp.len() == 0 || uniquifier.len() == 0 {
                None
            } else {
                Some((timestamp, uniquifier, flags_of(name)))
            }
        },
        None => None,
    }
}

/// The file name `{timestamp}.{uniquifier}:2,{flags}`, with the flags normalised.
pub open spec fn generated_filename(
    timestamp: Seq<char>,
    uniquifier: Seq<char>,
    flags: Seq<char>,
) -> Seq<char> {
    timestamp + seq!['.'] + uniquifier + info_suffix(flags)
}

// ---------------------------------------------------------------------------
// Flags
// ---------------------------------------------------------------------------

/// The flag at canonical position `i`.
fn flag_at(i: usize) -> (c: char)
    requires
        i < 6,
    ensures
        c == flag_order()[i as int],
{
    match i {
        0 => 'D',
        1 => 'F',
        2 => 'P',
        3 => 'R',
        4 => 'S',
        _ => 'T',
    }
}

/// The canonical position of flag `c`, if `c` is a flag.
fn flag_index(c: char) -> (r: Option<usize>)
    ensures
        match r {
            Some(i) => i < 6 && flag_order()[i as int] == c,
            None => !is_flag(c),
        },
{
    match c {
        'D' => Some(0),
        'F' => Some(1),
        'P' => Some(2),
        'R' => Some(3),
        'S' => Some(4),
        'T' => Some(5),
        _ => None,
    }
}

/// Which of the six flags occur in `s`, by canonical position.
pub open spec fn presence(s: Seq<char>) -> Seq<bool> {
    Seq::new(6, |k: int| s.contains(flag_order()[k]))
}

/// The flags marked in `seen`, in canonical order.
pub open spec fn rendered(seen: Seq<bool>) -> Seq<char> {
    flag_when(seen[0], 'D') + flag_when(seen[1], 'F') + flag_when(seen[2], 'P') + flag_when(
        seen[3],
        'R',
    ) + flag_when(seen[4], 'S') + flag_when(seen[5], 'T')
}

proof fn lemma_rendered_presence(s: Seq<char>)
    ensures
        rendered(presence(s)) == normalized(s),
{
}

proof fn lemma_contains_take_succ(s: Seq<char>, i: int, x: char)
    requires
        0 <= i < s.len(),
    ensures
        s.take(i + 1).contains(x) <==> (s.take(i).contains(x) || s[i] == x),
{
    let t = s.take(i + 1);
    assert(t =~= s.take(i).push(s[i]));
    if s.take(i).contains(x) {
        let j = choose|j: int| 0 <= j < i && s.take(i)[j] == x;
        assert(t[j] == x);
    }
    if s[i] == x {
        assert(t[i] == x);
    }
    if t.contains(x) {
        let j = choose|j: int| 0 <= j < i + 1 && t[j] == x;
        if j < i {
            assert(s.take(i)[j] == x);
        }
    }
}

/// Renders the flags marked in `seen` in canonical order.
fn render_flags(seen: &Vec<bool>) -> (out: String)
    requires
        seen@.len() == 6,
    ensures
        out@ == rendered(seen@),
{
    let mut out = String::new();
    let mut k: usize = 0;
    while k < 6
        invariant
            k <= 6,
            seen@.len() == 6,
            out@ == rendered_upto(seen@, k as nat),
        decreases 6 - k,
    {
        if seen[k] {
            push_char(&mut out, flag_at(k));
        }
        k = k + 1;
    }
    proof {
        reveal_with_fuel(rendered_upto, 7);
        assert(out@ =~= rendered(seen@));
    }
    out
}

/// The flags marked among the first `k` canonical positions of `seen`.
spec fn rendered_upto(seen: Seq<bool>, k: nat) -> Seq<char>
    decreases k,
{
    if k == 0 {
        Seq::empty()
    } else {
        rendered_upto(seen, (k - 1) as nat) + flag_when(
            seen[k - 1],
            flag_order()[k - 1],
        )
    }
}

/// Marks the flags of `chars[from..]` in a presence table, skipping
/// characters that are not flags.
fn scan_presence(chars: &Vec<char>, from: usize) -> (seen: Vec<bool>)
    requires
        from <= chars@.len(),
    ensures
        seen@ == presence(chars@.skip(from as int)),
{
    let ghost s = chars@.skip(from as int);
    let mut seen: Vec<bool> = vec![false, false, false, false, false, false];
    let mut i = from;
    while i < chars.len()
        invariant
            from <= i <= chars@.len(),
            s == chars@.skip(from as int),
            seen@.len() == 6,
            forall|k: int|
                0 <= k < 6 ==> seen@[k] == s.take(i - from).contains(#[trigger] flag_order()[k]),
        decreases chars@.len() - i,
    {
        let c = chars[i];
        proof {
            assert(s[i - from] == c);
            assert forall|k: int| 0 <= k < 6 implies s.take(i - from + 1).contains(
                #[trigger] flag_order()[k],
            ) == (s.take(i - from).contains(flag_order()[k]) || c == flag_order()[k]) by {
                lemma_contains_take_succ(s, i - from, flag_order()[k]);
            }
        }
        match flag_index(c) {
            Some(idx) => {
                seen.set(idx, true);
            },
            None => {},
        }
        i = i + 1;
    }
    proof {
        assert(s.take(i - from) =~= s);
        assert(seen@ =~= presence(s));
    }
    seen
}

/// Strict normalisation of `chars[from..]`.
fn normalize_chars(chars: &Vec<char>, from: usize) -> (r: Result<String, FlagError>)
    requires
        from <= chars@.len(),
    ensures
        normalize_outcome(chars@.skip(from as int), r),
{
    let ghost s = chars@.skip(from as int);
    let mut i = from;
    while i < chars.len()
        invariant
            from <= i <= chars@.len(),
            s == chars@.skip(from as int),
            all_flags(s.take(i - from)),
        decreases chars@.len() - i,
    {
        let c = chars[i];
        assert(s[i - from] == c);
        if flag_index(c).is_none() {
            return Err(FlagError::InvalidFlag { flag: c, position: i - from });
        }
        assert(s.take(i - from + 1) =~= s.take(i - from).push(c));
        i = i + 1;
    }
    assert(s.take(i - from) =~= s);
    let seen = scan_presence(chars, from);
    let out = render_flags(&seen);
    proof {
        lemma_rendered_presence(s);
    }
    Ok(out)
}

/// Normalize a flags string: validate, sort, deduplicate.
///
/// Fails on the first character that is not one of `D F P R S T`.
pub fn normalize_flags(raw: &str) -> (r: Result<String, FlagError>)
    ensures
        normalize_outcome(raw@, r),
{
    let chars = chars_of(raw);
    assert(chars@.skip(0) =~= chars@);
    normalize_chars(&chars, 0)
}

/// Normalize flags silently (invalid chars are discarded).
pub fn normalize_flags_lossy(raw: &str) -> (r: String)
    ensures
        r@ == normalized(raw@),
{
    let chars = chars_of(raw);
    assert(chars@.skip(0) =~= chars@);
    let seen = scan_presence(&chars, 0);
    proof {
        lemma_rendered_presence(raw@);
    }
    render_flags(&seen)
}

/// Whether `chars` starts with `:2,`.
fn starts_with_info_marker(chars: &Vec<char>) -> (r: bool)
    ensures
        r == (chars@.len() >= 3 && chars@.take(3) == info_marker()),
{
    if chars.len() >= 3 && chars[0] == ':' && chars[1] == '2' && chars[2] == ',' {
        assert(chars@.take(3) =~= info_marker());
        true
    } else {
        proof {
            if chars@.len() >= 3 && chars@.take(3) == info_marker() {
                assert(chars@.take(3)[0] == ':');
                assert(chars@.take(3)[1] == '2');
                assert(chars@.take(3)[2] == ',');
            }
        }
        false
    }
}

/// Parse the flags portion of a Maildir info suffix (`:2,{flags}`).
/// Accepts the full suffix or just the flags part.
/// Returns a normalized (sorted, deduplicated, validated) flags string.
pub fn parse_flags(input: &str) -> (r: Result<String, FlagError>)
    ensures
        normalize_outcome(strip_info_marker(input@), r),
{
    let chars = chars_of(input);
    if starts_with_info_marker(&chars) {
        normalize_chars(&chars, 3)
    } else {
        assert(chars@.skip(0) =~= chars@);
        normalize_chars(&chars, 0)
    }
}

/// Format a flags string as a `:2,{flags}` info suffix.
/// The flags are normalized even if already valid.
pub fn flags_to_suffix(flags: &str) -> (r: String)
    ensures
        r@ == info_suffix(flags@),
{
    let normalized = normalize_flags_lossy(flags);
    let mut out = String::new();
    push_char(&mut out, ':');
    push_char(&mut out, '2');
    push_char(&mut out, ',');
    push_text(&mut out, normalized.as_str());
    assert(out@ =~= info_suffix(flags@));
    out
}


// ---------------------------------------------------------------------------
// File names
// ---------------------------------------------------------------------------

/// Parsed components of a Maildir filename.
#[derive(Debug, Clone, PartialEq, Eq)]
pub struct FilenameParts {
    pub timestamp: String,
    pub uniquifier: String,
    pub flags: String,
}

/// The position of the first `:2,` in `chars`.
pub(crate) fn find_info(chars: &Vec<char>) -> (r: Option<usize>)
    ensures
        match r {
            Some(p) => p + 3 <= chars@.len() && first_info_from(chars@, 0) == Some(p as nat),
            None => first_info_from(chars@, 0) is None,
        },
{
    let mut i: usize = 0;
    while i < chars.len() && chars.len() - i >= 3
        invariant
            i <= chars@.len(),
            first_info_from(chars@, 0) == first_info_from(chars@, i as nat),
        decreases chars@.len() - i,
    {
        if chars[i] == ':' && chars[i + 1] == '2' && chars[i + 2] == ',' {
            return Some(i);
        }
        i = i + 1;
    }
    None
}

/// The position of the first `c` in `chars[..end]`.
fn find_char_before(chars: &Vec<char>, c: char, end: usize) -> (r: Option<usize>)
    requires
        end <= chars@.len(),
    ensures
        match r {
            Some(d) => d < end && first_char_from(chars@.take(end as int), c, 0) == Some(d as nat),
            None => first_char_from(chars@.take(end as int), c, 0) is None,
        },
{
    let ghost t = chars@.take(end as int);
    let mut i: usize = 0;
    while i < end
        invariant
            i <= end <= chars@.len(),
            t == chars@.take(end as int),
            first_char_from(t, c, 0) == first_char_from(t, c, i as nat),
        decreases end - i,
    {
        assert(t[i as int] == chars@[i as int]);
        if chars[i] == c {
            return Some(i);
        }
        i = i + 1;
    }
    None
}

/// Parse a Maildir filename into its components.
/// Accepts filenames with or without the `:2,{flags}` info suffix.
pub fn parse_filename(filename: &str) -> (r: Option<FilenameParts>)
    ensures
        match r {
            Some(parts) => parsed_filename(filename@) == Some(
                (parts.timestamp@, parts.uniquifier@, parts.flags@),
            ),
            None => parsed_filename(filename@) is None,
        },
{
    let chars = chars_of(filename);
    let info = find_info(&chars);
    let (base_end, flags) = match info {
        Some(p) => {
            assert(chars@.len() == chars.len());
            let seen = scan_presence(&chars, p + 3);
            proof {
                lemma_rendered_presence(chars@.skip(p + 3));
            }
            (p, render_flags(&seen))
        },
        None => (chars.len(), String::new()),
    };
    let ghost base = chars@.take(base_end as int);
    assert(base == base_of(filename@)) by {
        if info is None {
            assert(chars@.take(chars@.len() as int) =~= chars@);
        }
    }
    assert(flags@ == flags_of(filename@));
    match find_char_before(&chars, '.', base_end) {
        None => None,
        Some(d) => {
            if d == 0 || d + 1 == base_end {
                None
            } else {
                let timestamp = string_from_range(&chars, 0, d);
                let uniquifier = string_from_range(&chars, d + 1, base_end);
                assert(timestamp@ =~= base.take(d as int));
                assert(uniquifier@ =~= base.skip(d + 1));
                Some(FilenameParts { timestamp, uniquifier, flags })
            }
        },
    }
}

/// Generate a Maildir filename from its parts.
pub fn generate_filename(parts: &FilenameParts) -> (r: String)
    ensures
        r@ == generated_filename(parts.timestamp@, parts.uniquifier@, parts.flags@),
{
    let suffix = flags_to_suffix(parts.flags.as_str());
    let mut out = String::new();
    push_text(&mut out, parts.timestamp.as_str());
    push_char(&mut out, '.');
    push_text(&mut out, parts.uniquifier.as_str());
    push_text(&mut out, suffix.as_str());
    assert(out@ =~= generated_filename(parts.timestamp@, parts.uniquifier@, parts.flags@));
    out
}


// ---------------------------------------------------------------------------
// JMAP keywords
// ---------------------------------------------------------------------------

/// The JMAP keyword `$answered`.
pub open spec fn kw_answered() -> Seq<char> {
    seq!['$', 'a', 'n', 's', 'w', 'e', 'r', 'e', 'd']
}

/// The JMAP keyword `$draft`.
pub open spec fn kw_draft() -> Seq<char> {
    seq!['$', 'd', 'r', 'a', 'f', 't']
}

/// The JMAP keyword `$flagged`.
pub open spec fn kw_flagged() -> Seq<char> {
    seq!['$', 'f', 'l', 'a', 'g', 'g', 'e', 'd']
}

/// The JMAP keyword `$forwarded`.
pub open spec fn kw_forwarded() -> Seq<char> {
    seq!['$', 'f', 'o', 'r', 'w', 'a', 'r', 'd', 'e', 'd']
}

/// The JMAP keyword `$seen`.
pub open spec fn kw_seen() -> Seq<char> {
    seq!['$', 's', 'e', 'e', 'n']
}

/// The JMAP keyword `$trashed`.
pub open spec fn kw_trashed() -> Seq<char> {
    seq!['$', 't', 'r', 'a', 's', 'h', 'e', 'd']
}

/// The JMAP keyword that corresponds to Maildir flag `c`, if any.
pub open spec fn flag_keyword(c: char) -> Option<Seq<char>> {
    if c == 'D' {
        Some(kw_draft())
    } else if c == 'F' {
        Some(kw_flagged())
    } else if c == 'P' {
        Some(kw_forwarded())
    } else if c == 'R' {
        Some(kw_answered())
    } else if c == 'S' {
        Some(kw_seen())
    } else if c == 'T' {
        Some(kw_trashed())
    } else {
        None
    }
}

/// The Maildir flag that corresponds to JMAP keyword `k`, if any.
pub open spec fn keyword_flag(k: Seq<char>) -> Option<char> {
    if k == kw_answered() {
        Some('R')
    } else if k == kw_draft() {
        Some('D')
    } else if k == kw_flagged() {
        Some('F')
    } else if k == kw_forwarded() {
        Some('P')
    } else if k == kw_seen() {
        Some('S')
    } else if k == kw_trashed() {
        Some('T')
    } else {
        None
    }
}

/// Some keyword of `keys` maps to flag `f`.
pub open spec fn has_keyword_for(keys: Set<Seq<char>>, f: char) -> bool {
    exists|k: Seq<char>| keys.contains(k) && keyword_flag(k) == Some(f)
}

/// The Maildir flags of a set of JMAP keywords, each once, in canonical order;
/// keywords without a flag are ignored.
pub open spec fn keyword_set_flags(keys: Set<Seq<char>>) -> Seq<char> {
    flag_when(has_keyword_for(keys, 'D'), 'D') + flag_when(has_keyword_for(keys, 'F'), 'F')
        + flag_when(has_keyword_for(keys, 'P'), 'P') + flag_when(has_keyword_for(keys, 'R'), 'R')
        + flag_when(has_keyword_for(keys, 'S'), 'S') + flag_when(has_keyword_for(keys, 'T'), 'T')
}

/// The texts held by a set of strings.
pub open spec fn texts(set: Set<String>) -> Set<Seq<char>> {
    set.map(|s: String| s@)
}

/// The JMAP keywords of the flags in `flags`, in order; characters that are not
/// flags are skipped, repeated flags give repeated keywords.
pub open spec fn keywords_of(flags: Seq<char>) -> Seq<Seq<char>> {
    flags.filter_map(|c: char| flag_keyword(c))
}

proof fn lemma_keyword_literals()
    ensures
        "$answered"@ == kw_answered(),
        "$draft"@ == kw_draft(),
        "$flagged"@ == kw_flagged(),
        "$forwarded"@ == kw_forwarded(),
        "$seen"@ == kw_seen(),
        "$trashed"@ == kw_trashed(),
{
    reveal_strlit("$answered");
    reveal_strlit("$draft");
    reveal_strlit("$flagged");
    reveal_strlit("$forwarded");
    reveal_strlit("$seen");
    reveal_strlit("$trashed");
    assert("$answered"@ =~= kw_answered());
    assert("$draft"@ =~= kw_draft());
    assert("$flagged"@ =~= kw_flagged());
    assert("$forwarded"@ =~= kw_forwarded());
    assert("$seen"@ =~= kw_seen());
    assert("$trashed"@ =~= kw_trashed());
}

/// Convert a JMAP keyword to a Maildir flag character, if applicable.
pub fn keyword_to_flag(keyword: &str) -> (r: Option<char>)
    ensures
        r == keyword_flag(keyword@),
{
    proof {
        lemma_keyword_literals();
    }
    if same_text(keyword, "$answered") {
        Some('R')
    } else if same_text(keyword, "$draft") {
        Some('D')
    } else if same_text(keyword, "$flagged") {
        Some('F')
    } else if same_text(keyword, "$forwarded") {
        Some('P')
    } else if same_text(keyword, "$seen") {
        Some('S')
    } else if same_text(keyword, "$trashed") {
        Some('T')
    } else {
        None
    }
}

/// Convert a Maildir flag character to a JMAP keyword, if applicable.
pub fn flag_to_keyword(flag: char) -> (r: Option<&'static str>)
    ensures
        match r {
            Some(k) => flag_keyword(flag) == Some(k@),
            None => flag_keyword(flag) is None,
        },
{
    proof {
        lemma_keyword_literals();
    }
    match flag {
        'D' => Some("$draft"),
        'F' => Some("$flagged"),
        'P' => Some("$forwarded"),
        'R' => Some("$answered"),
        'S' => Some("$seen"),
        'T' => Some("$trashed"),
        _ => None,
    }
}

/// `BTreeSet::contains`: whether `set` holds a string with the characters of `key`.
#[verifier::external_body]
fn set_contains(set: &BTreeSet<String>, key: &str) -> (b: bool)
    ensures
        b == texts(set@).contains(key@),
{
    set.contains(key)
}

proof fn lemma_keyword_flag_inverse(f: char)
    ensures
        match flag_keyword(f) {
            Some(k) => keyword_flag(k) == Some(f),
            None => !is_flag(f),
        },
{
    let answered = kw_answered();
    let draft = kw_draft();
    let flagged = kw_flagged();
    let forwarded = kw_forwarded();
    let seen = kw_seen();
    let trashed = kw_trashed();
    assert(answered.len() == 9 && draft.len() == 6 && flagged.len() == 8);
    assert(forwarded.len() == 10 && seen.len() == 5 && trashed.len() == 8);
    assert(flagged[1] != trashed[1]);
}

/// A keyword maps to a flag exactly when that flag maps back to the keyword.
pub proof fn lemma_keyword_flag_bijection(k: Seq<char>, f: char)
    ensures
        keyword_flag(k) == Some(f) <==> flag_keyword(f) == Some(k),
{
    lemma_keyword_flag_inverse('D');
    lemma_keyword_flag_inverse('F');
    lemma_keyword_flag_inverse('P');
    lemma_keyword_flag_inverse('R');
    lemma_keyword_flag_inverse('S');
    lemma_keyword_flag_inverse('T');
}

/// Convert a set of JMAP keywords to a sorted, deduplicated Maildir flags string.
pub fn keywords_to_flags(keywords: &BTreeSet<String>) -> (r: String)
    ensures
        r@ == keyword_set_flags(texts(keywords@)),
{
    let ghost keys = texts(keywords@);
    let mut seen: Vec<bool> = Vec::new();
    let mut k: usize = 0;
    while k < 6
        invariant
            k <= 6,
            keys == texts(keywords@),
            seen@.len() == k,
            forall|j: int| 0 <= j < k ==> seen@[j] == has_keyword_for(keys, #[trigger] flag_order()[j]),
        decreases 6 - k,
    {
        let f = flag_at(k);
        let kw = flag_to_keyword(f).unwrap();
        let present = set_contains(keywords, kw);
        proof {
            lemma_keyword_flag_bijection(kw@, f);
            if has_keyword_for(keys, f) {
                let w = choose|w: Seq<char>| keys.contains(w) && keyword_flag(w) == Some(f);
                lemma_keyword_flag_bijection(w, f);
            }
        }
        seen.push(present);
        k = k + 1;
    }
    let out = render_flags(&seen);
    assert(seen@[0] == has_keyword_for(keys, flag_order()[0]));
    assert(seen@[1] == has_keyword_for(keys, flag_order()[1]));
    assert(seen@[2] == has_keyword_for(keys, flag_order()[2]));
    assert(seen@[3] == has_keyword_for(keys, flag_order()[3]));
    assert(seen@[4] == has_keyword_for(keys, flag_order()[4]));
    assert(seen@[5] == has_keyword_for(keys, flag_order()[5]));
    assert(out@ =~= keyword_set_flags(keys));
    out
}

/// Convert a Maildir flags string to a vector of JMAP keywords.
pub fn flags_to_keywords(flags: &str) -> (r: Vec<String>)
    ensures
        r@.map_values(|s: String| s@) == keywords_of(flags@),
{
    let chars = chars_of(flags);
    let mut result: Vec<String> = Vec::new();
    let mut i: usize = 0;
    while i < chars.len()
        invariant
            chars@ == flags@,
            i <= chars@.len(),
            result@.map_values(|s: String| s@) == chars@.take(i as int).filter_map(
                |c: char| flag_keyword(c),
            ),
        decreases chars@.len() - i,
    {
        let c = chars[i];
        proof {
            chars@.lemma_filter_map_take_succ(|c: char| flag_keyword(c), i as int);
        }
        let ghost before = result@;
        match flag_to_keyword(c) {
            Some(k) => {
                result.push(k.to_string());
                assert(result@.map_values(|s: String| s@) =~= before.map_values(|s: String| s@)
                    + seq![k@]);
            },
            None => {},
        }
        i = i + 1;
    }
    assert(chars@.take(chars@.len() as int) =~= chars@);
    result
}


// ---------------------------------------------------------------------------
// Laws
// ---------------------------------------------------------------------------

/// Normalised flags are flags, occur once each, and are exactly the flags of the input.
pub proof fn lemma_normalized_flags(raw: Seq<char>)
    ensures
        all_flags(normalized(raw)),
        normalized(raw).no_duplicates(),
        forall|f: char| is_flag(f) ==> (normalized(raw).contains(f) <==> raw.contains(f)),
        forall|c: char| normalized(raw).contains(c) ==> is_flag(c),
{
    let n = normalized(raw);
    assert forall|f: char| is_flag(f) implies (n.contains(f) <==> raw.contains(f)) by {
        lemma_normalized_contains(raw, f);
    }
    assert forall|c: char| n.contains(c) implies is_flag(c) by {
        let i = choose|i: int| 0 <= i < n.len() && n[i] == c;
        lemma_normalized_index(raw, i);
    }
    assert forall|i: int| 0 <= i < n.len() implies is_flag(#[trigger] n[i]) by {
        lemma_normalized_index(raw, i);
    }
    assert forall|i: int, j: int| 0 <= i < n.len() && 0 <= j < n.len() && i != j implies n[i]
        != n[j] by {
        lemma_normalized_index(raw, i);
        lemma_normalized_index(raw, j);
    }
}

/// The ranks of the flags in `normalized(raw)` strictly increase.
spec fn flag_rank(c: char) -> int {
    if c == 'D' {
        0
    } else if c == 'F' {
        1
    } else if c == 'P' {
        2
    } else if c == 'R' {
        3
    } else if c == 'S' {
        4
    } else {
        5
    }
}

/// The rank of the flag at position `i` of `normalized(raw)` is at least `i`,
/// and ranks strictly increase along the sequence.
proof fn lemma_normalized_index(raw: Seq<char>, i: int)
    requires
        0 <= i < normalized(raw).len(),
    ensures
        is_flag(normalized(raw)[i]),
        forall|j: int| 0 <= j < i ==> flag_rank(normalized(raw)[j]) < flag_rank(normalized(raw)[i]),
{
    let a = flag_when(raw.contains('D'), 'D');
    let b = flag_when(raw.contains('F'), 'F');
    let c = flag_when(raw.contains('P'), 'P');
    let d = flag_when(raw.contains('R'), 'R');
    let e = flag_when(raw.contains('S'), 'S');
    let f = flag_when(raw.contains('T'), 'T');
    let n = normalized(raw);
    assert(n =~= a + b + c + d + e + f);
    assert forall|j: int| 0 <= j < n.len() implies is_flag(#[trigger] n[j]) && (j < a.len() ==> n[j] == 'D')
        && (a.len() <= j < a.len() + b.len() ==> n[j] == 'F')
        && (a.len() + b.len() <= j < a.len() + b.len() + c.len() ==> n[j] == 'P')
        && (a.len() + b.len() + c.len() <= j < a.len() + b.len() + c.len() + d.len() ==> n[j] == 'R')
        && (a.len() + b.len() + c.len() + d.len() <= j < a.len() + b.len() + c.len() + d.len() + e.len() ==> n[j] == 'S')
        && (a.len() + b.len() + c.len() + d.len() + e.len() <= j ==> n[j] == 'T') by {
    }
}

proof fn lemma_concat_contains(x: Seq<char>, y: Seq<char>, e: char)
    ensures
        (x + y).contains(e) <==> (x.contains(e) || y.contains(e)),
{
    let z = x + y;
    if x.contains(e) {
        let i = choose|i: int| 0 <= i < x.len() && x[i] == e;
        assert(z[i] == e);
    }
    if y.contains(e) {
        let i = choose|i: int| 0 <= i < y.len() && y[i] == e;
        assert(z[x.len() + i] == e);
    }
    if z.contains(e) {
        let i = choose|i: int| 0 <= i < z.len() && z[i] == e;
        if i < x.len() {
            assert(x[i] == e);
        } else {
            assert(y[i - x.len()] == e);
        }
    }
}

proof fn lemma_flag_when_contains(present: bool, g: char, e: char)
    ensures
        flag_when(present, g).contains(e) <==> (present && g == e),
{
    if present {
        assert(flag_when(present, g)[0] == g);
    }
}

proof fn lemma_normalized_contains(raw: Seq<char>, f: char)
    requires
        is_flag(f),
    ensures
        normalized(raw).contains(f) <==> raw.contains(f),
{
    let a = flag_when(raw.contains('D'), 'D');
    let b = flag_when(raw.contains('F'), 'F');
    let c = flag_when(raw.contains('P'), 'P');
    let d = flag_when(raw.contains('R'), 'R');
    let e = flag_when(raw.contains('S'), 'S');
    let g = flag_when(raw.contains('T'), 'T');
    lemma_concat_contains(a, b, f);
    lemma_concat_contains(a + b, c, f);
    lemma_concat_contains(a + b + c, d, f);
    lemma_concat_contains(a + b + c + d, e, f);
    lemma_concat_contains(a + b + c + d + e, g, f);
    lemma_flag_when_contains(raw.contains('D'), 'D', f);
    lemma_flag_when_contains(raw.contains('F'), 'F', f);
    lemma_flag_when_contains(raw.contains('P'), 'P', f);
    lemma_flag_when_contains(raw.contains('R'), 'R', f);
    lemma_flag_when_contains(raw.contains('S'), 'S', f);
    lemma_flag_when_contains(raw.contains('T'), 'T', f);
}

/// Normalising normalised flags changes nothing.
pub proof fn lemma_normalize_idempotent(raw: Seq<char>)
    ensures
        normalized(normalized(raw)) == normalized(raw),
{
    let n = normalized(raw);
    lemma_normalized_contains(raw, 'D');
    lemma_normalized_contains(raw, 'F');
    lemma_normalized_contains(raw, 'P');
    lemma_normalized_contains(raw, 'R');
    lemma_normalized_contains(raw, 'S');
    lemma_normalized_contains(raw, 'T');
    assert(normalized(n) =~= n);
}

/// When strict normalisation succeeds it gives what lossy normalisation gives;
/// it fails exactly when some character is not a flag.
pub proof fn lemma_strict_agrees_with_lossy(raw: Seq<char>, r: Result<String, FlagError>)
    requires
        normalize_outcome(raw, r),
    ensures
        r is Ok <==> all_flags(raw),
        r matches Ok(s) ==> s@ == normalized(raw),
{
}

/// The suffix written for any flags parses back to their normalised form.
pub proof fn lemma_suffix_roundtrip(flags: Seq<char>)
    ensures
        strip_info_marker(info_suffix(flags)) == normalized(flags),
        all_flags(normalized(flags)),
        normalized(strip_info_marker(info_suffix(flags))) == normalized(flags),
{
    let sfx = info_suffix(flags);
    assert(sfx.take(3) =~= info_marker());
    assert(sfx.skip(3) =~= normalized(flags));
    lemma_normalized_flags(flags);
    lemma_normalize_idempotent(flags);
}

pub(crate) proof fn lemma_first_info_at(s: Seq<char>, from: nat, p: nat)
    requires
        from <= p,
        info_at(s, p as int),
        forall|q: int| from <= q < p ==> !info_at(s, q),
    ensures
        first_info_from(s, from) == Some(p),
    decreases p - from,
{
    if from < p {
        lemma_first_info_at(s, from + 1, p);
    }
}

pub(crate) proof fn lemma_first_info_props(s: Seq<char>, from: nat)
    ensures
        match first_info_from(s, from) {
            Some(p) => from <= p && info_at(s, p as int) && forall|q: int|
                from <= q < p ==> !info_at(s, q),
            None => forall|q: int| from <= q ==> !info_at(s, q),
        },
    decreases s.len() - from,
{
    if from + 3 <= s.len() && !info_at(s, from as int) {
        lemma_first_info_props(s, from + 1);
    }
}

proof fn lemma_first_char_at(s: Seq<char>, c: char, from: nat, d: nat)
    requires
        from <= d < s.len(),
        s[d as int] == c,
        forall|q: int| from <= q < d ==> s[q] != c,
    ensures
        first_char_from(s, c, from) == Some(d),
    decreases d - from,
{
    if from < d {
        lemma_first_char_at(s, c, from + 1, d);
    }
}

proof fn lemma_first_char_props(s: Seq<char>, c: char, from: nat)
    ensures
        match first_char_from(s, c, from) {
            Some(d) => from <= d < s.len() && s[d as int] == c && forall|q: int|
                from <= q < d ==> s[q] != c,
            None => forall|q: int| from <= q < s.len() ==> s[q] != c,
        },
    decreases s.len() - from,
{
    if from < s.len() && s[from as int] != c {
        lemma_first_char_props(s, c, from + 1);
    }
}

/// No `:2,` marker occurs anywhere in `s`.
pub open spec fn has_no_info(s: Seq<char>) -> bool {
    forall|q: int| !info_at(s, q)
}

/// Parts from which a file name can be written and read back: a non-empty
/// timestamp without `.`, a non-empty uniquifier, and no `:2,` in either.
pub open spec fn valid_parts(timestamp: Seq<char>, uniquifier: Seq<char>) -> bool {
    &&& timestamp.len() > 0
    &&& uniquifier.len() > 0
    &&& !timestamp.contains('.')
    &&& has_no_info(timestamp)
    &&& has_no_info(uniquifier)
}

/// A generated file name parses back to its parts, with the flags normalised.
pub proof fn lemma_generate_parse_roundtrip(
    timestamp: Seq<char>,
    uniquifier: Seq<char>,
    flags: Seq<char>,
)
    requires
        valid_parts(timestamp, uniquifier),
    ensures
        parsed_filename(generated_filename(timestamp, uniquifier, flags)) == Some(
            (timestamp, uniquifier, normalized(flags)),
        ),
{
    let s = generated_filename(timestamp, uniquifier, flags);
    let t = timestamp.len() as int;
    let u = uniquifier.len() as int;
    let p = t + 1 + u;
    let n = normalized(flags);
    assert(s =~= timestamp + seq!['.'] + uniquifier + info_marker() + n);
    assert(s.len() == p + 3 + n.len());
    assert forall|i: int| 0 <= i < t implies s[i] == timestamp[i] by {}
    assert(s[t] == '.');
    assert forall|i: int| 0 <= i < u implies s[t + 1 + i] == uniquifier[i] by {}
    assert(s[p] == ':' && s[p + 1] == '2' && s[p + 2] == ',');
    assert forall|q: int| 0 <= q < p implies !info_at(s, q) by {
        if q + 3 <= t {
            assert(!info_at(timestamp, q));
            assert(s[q] == timestamp[q] && s[q + 1] == timestamp[q + 1] && s[q + 2]
                == timestamp[q + 2]);
        } else if q <= t {
        } else if q + 3 <= p {
            assert(!info_at(uniquifier, q - t - 1));
            assert(s[q] == uniquifier[q - t - 1] && s[q + 1] == uniquifier[q - t] && s[q + 2]
                == uniquifier[q - t + 1]);
        } else {
        }
    }
    lemma_first_info_at(s, 0, p as nat);
    let base = s.take(p);
    assert(base =~= timestamp + seq!['.'] + uniquifier);
    assert forall|q: int| 0 <= q < t implies base[q] != '.' by {
        assert(base[q] == timestamp[q]);
        if base[q] == '.' {
            assert(timestamp.contains('.'));
        }
    }
    lemma_first_char_at(base, '.', 0, t as nat);
    assert(base.take(t) =~= timestamp);
    assert(base.skip(t + 1) =~= uniquifier);
    assert(s.skip(p + 3) =~= n);
    lemma_normalize_idempotent(flags);
}

/// Writing out the parts of a parsed file name and parsing the result gives the
/// same parts again.
pub proof fn lemma_parse_generate_stable(name: Seq<char>)
    requires
        parsed_filename(name) is Some,
    ensures
        ({
            let (timestamp, uniquifier, flags) = parsed_filename(name).unwrap();
            parsed_filename(generated_filename(timestamp, uniquifier, flags)) == parsed_filename(
                name,
            )
        }),
{
    let (timestamp, uniquifier, flags) = parsed_filename(name).unwrap();
    let base = base_of(name);
    lemma_first_info_props(name, 0);
    lemma_first_char_props(base, '.', 0);
    let d = first_char_from(base, '.', 0).unwrap() as int;
    let p = base.len() as int;
    assert forall|q: int| 0 <= q && q + 3 <= p implies !info_at(base, q) by {
        assert(base[q] == name[q] && base[q + 1] == name[q + 1] && base[q + 2] == name[q + 2]);
        if info_at(base, q) {
            assert(info_at(name, q));
        }
    }
    assert forall|q: int| !info_at(timestamp, q) by {
        if info_at(timestamp, q) {
            assert(timestamp[q] == base[q] && timestamp[q + 1] == base[q + 1] && timestamp[q + 2]
                == base[q + 2]);
            assert(info_at(base, q));
        }
    }
    assert forall|q: int| !info_at(uniquifier, q) by {
        if info_at(uniquifier, q) {
            let b = q + d + 1;
            assert(uniquifier[q] == base[b] && uniquifier[q + 1] == base[b + 1] && uniquifier[q
                + 2] == base[b + 2]);
            assert(info_at(base, b));
        }
    }
    if timestamp.contains('.') {
        let i = choose|i: int| 0 <= i < timestamp.len() && timestamp[i] == '.';
        assert(base[i] == '.');
    }
    lemma_generate_parse_roundtrip(timestamp, uniquifier, flags);
    match first_info_from(name, 0) {
        Some(q) => {
            lemma_normalize_idempotent(name.skip(q + 3int));
        },
        None => {
            assert(normalized(Seq::<char>::empty()) =~= Seq::<char>::empty());
        },
    }
}

proof fn lemma_rendered_contains(seen: Seq<bool>, f: char, k: int)
    requires
        seen.len() == 6,
        0 <= k < 6,
        flag_order()[k] == f,
    ensures
        rendered(seen).contains(f) <==> seen[k],
{
    let a = flag_when(seen[0], 'D');
    let b = flag_when(seen[1], 'F');
    let c = flag_when(seen[2], 'P');
    let d = flag_when(seen[3], 'R');
    let e = flag_when(seen[4], 'S');
    let g = flag_when(seen[5], 'T');
    lemma_concat_contains(a, b, f);
    lemma_concat_contains(a + b, c, f);
    lemma_concat_contains(a + b + c, d, f);
    lemma_concat_contains(a + b + c + d, e, f);
    lemma_concat_contains(a + b + c + d + e, g, f);
    lemma_flag_when_contains(seen[0], 'D', f);
    lemma_flag_when_contains(seen[1], 'F', f);
    lemma_flag_when_contains(seen[2], 'P', f);
    lemma_flag_when_contains(seen[3], 'R', f);
    lemma_flag_when_contains(seen[4], 'S', f);
    lemma_flag_when_contains(seen[5], 'T', f);
}

/// Flags rendered from a presence table are already normalised.
proof fn lemma_rendered_canonical(seen: Seq<bool>)
    requires
        seen.len() == 6,
    ensures
        normalized(rendered(seen)) == rendered(seen),
{
    lemma_rendered_contains(seen, 'D', 0);
    lemma_rendered_contains(seen, 'F', 1);
    lemma_rendered_contains(seen, 'P', 2);
    lemma_rendered_contains(seen, 'R', 3);
    lemma_rendered_contains(seen, 'S', 4);
    lemma_rendered_contains(seen, 'T', 5);
    assert(normalized(rendered(seen)) =~= rendered(seen));
}

/// The flags of any keyword set are in normal form: sorted, each once.
pub proof fn lemma_keyword_flags_canonical(keys: Set<Seq<char>>)
    ensures
        normalized(keyword_set_flags(keys)) == keyword_set_flags(keys),
{
    let seen = Seq::new(6, |k: int| has_keyword_for(keys, flag_order()[k]));
    assert(rendered(seen) =~= keyword_set_flags(keys));
    lemma_rendered_canonical(seen);
}

/// What a rendered presence table holds, character by character.
proof fn lemma_rendered_members(seen: Seq<bool>, f: char)
    requires
        seen.len() == 6,
    ensures
        rendered(seen).contains(f) <==> ((f == 'D' && seen[0]) || (f == 'F' && seen[1]) || (f
            == 'P' && seen[2]) || (f == 'R' && seen[3]) || (f == 'S' && seen[4]) || (f == 'T'
            && seen[5])),
{
    let a = flag_when(seen[0], 'D');
    let b = flag_when(seen[1], 'F');
    let c = flag_when(seen[2], 'P');
    let d = flag_when(seen[3], 'R');
    let e = flag_when(seen[4], 'S');
    let g = flag_when(seen[5], 'T');
    lemma_concat_contains(a, b, f);
    lemma_concat_contains(a + b, c, f);
    lemma_concat_contains(a + b + c, d, f);
    lemma_concat_contains(a + b + c + d, e, f);
    lemma_concat_contains(a + b + c + d + e, g, f);
    lemma_flag_when_contains(seen[0], 'D', f);
    lemma_flag_when_contains(seen[1], 'F', f);
    lemma_flag_when_contains(seen[2], 'P', f);
    lemma_flag_when_contains(seen[3], 'R', f);
    lemma_flag_when_contains(seen[4], 'S', f);
    lemma_flag_when_contains(seen[5], 'T', f);
}

/// A character is among the flags of a keyword set exactly when some keyword
/// of the set is the JMAP keyword of that flag; no other keyword adds a flag.
pub proof fn lemma_keyword_set_flags_members(keys: Set<Seq<char>>, c: char)
    ensures
        keyword_set_flags(keys).contains(c) <==> exists|k: Seq<char>|
            #[trigger] keys.contains(k) && flag_keyword(c) == Some(k),
{
    let seen = Seq::new(6, |j: int| has_keyword_for(keys, flag_order()[j]));
    assert(rendered(seen) =~= keyword_set_flags(keys));
    lemma_rendered_members(seen, c);
    if keyword_set_flags(keys).contains(c) {
        let w = choose|w: Seq<char>| keys.contains(w) && keyword_flag(w) == Some(c);
        lemma_keyword_flag_bijection(w, c);
    }
    if exists|k: Seq<char>| #[trigger] keys.contains(k) && flag_keyword(c) == Some(k) {
        let k = choose|k: Seq<char>| #[trigger] keys.contains(k) && flag_keyword(c) == Some(k);
        lemma_keyword_flag_bijection(k, c);
        assert(keys.contains(k) && keyword_flag(k) == Some(c));
    }
}

/// The flags of a keyword set depend only on its keywords that have a flag:
/// dropping every other keyword leaves them unchanged.
pub proof fn lemma_keyword_set_flags_ignores_others(keys: Set<Seq<char>>)
    ensures
        keyword_set_flags(keys) == keyword_set_flags(
            keys.filter(|k: Seq<char>| keyword_flag(k) is Some),
        ),
{
    let kept = keys.filter(|k: Seq<char>| keyword_flag(k) is Some);
    assert forall|f: char| has_keyword_for(keys, f) == has_keyword_for(kept, f) by {
        if has_keyword_for(keys, f) {
            let w = choose|w: Seq<char>| keys.contains(w) && keyword_flag(w) == Some(f);
            assert(kept.contains(w));
        }
    }
    assert(keyword_set_flags(keys) =~= keyword_set_flags(kept));
}

/// Adding a keyword that has no Maildir flag does not change a keyword set's flags.
pub proof fn lemma_keyword_set_flags_other_keyword(keys: Set<Seq<char>>, k: Seq<char>)
    requires
        keyword_flag(k) is None,
    ensures
        keyword_set_flags(keys.insert(k)) == keyword_set_flags(keys),
{
    let more = keys.insert(k);
    assert forall|f: char| has_keyword_for(more, f) == has_keyword_for(keys, f) by {
        if has_keyword_for(more, f) {
            let w = choose|w: Seq<char>| more.contains(w) && keyword_flag(w) == Some(f);
            assert(w != k);
            assert(keys.contains(w));
        }
    }
    assert(keyword_set_flags(more) =~= keyword_set_flags(keys));
}

proof fn lemma_keywords_have_flag(flags: Seq<char>, g: char)
    requires
        is_flag(g),
    ensures
        has_keyword_for(keywords_of(flags).to_set(), g) <==> flags.contains(g),
{
    let keys = keywords_of(flags).to_set();
    let f = |c: char| flag_keyword(c);
    lemma_keyword_flag_inverse(g);
    let kw = flag_keyword(g).unwrap();
    if flags.contains(g) {
        lemma_filter_map_keeps(flags, f, g);
        assert(keywords_of(flags).contains(kw));
        assert(keys.contains(kw));
        assert(keyword_flag(kw) == Some(g));
    }
    if has_keyword_for(keys, g) {
        let w = choose|w: Seq<char>| keys.contains(w) && keyword_flag(w) == Some(g);
        lemma_keyword_flag_bijection(w, g);
        assert(keywords_of(flags).contains(w));
        flags.lemma_filter_map_contains(f, w);
        let t = choose|t: char| flags.contains(t) && f(t) == Some(w);
        lemma_keyword_flag_bijection(w, t);
    }
}

/// Turning flags into keywords and the set of those keywords back into flags
/// gives the normalised flags.
pub proof fn lemma_keywords_roundtrip(flags: Seq<char>)
    ensures
        keyword_set_flags(keywords_of(flags).to_set()) == normalized(flags),
{
    let keys = keywords_of(flags).to_set();
    lemma_keywords_have_flag(flags, 'D');
    lemma_keywords_have_flag(flags, 'F');
    lemma_keywords_have_flag(flags, 'P');
    lemma_keywords_have_flag(flags, 'R');
    lemma_keywords_have_flag(flags, 'S');
    lemma_keywords_have_flag(flags, 'T');
    assert(keyword_set_flags(keys) =~= normalized(flags));
}

proof fn lemma_filter_map_keeps(s: Seq<char>, f: spec_fn(char) -> Option<Seq<char>>, c: char)
    requires
        s.contains(c),
        f(c) is Some,
    ensures
        s.filter_map(f).contains(f(c).unwrap()),
    decreases s.len(),
{
    let last = s.last();
    let rest = s.drop_last();
    assert(s =~= rest.push(last));
    if last == c {
        assert(s.filter_map(f) == rest.filter_map(f) + seq![f(c).unwrap()]);
        assert(s.filter_map(f)[s.filter_map(f).len() - 1] == f(c).unwrap());
    } else {
        let i = choose|i: int| 0 <= i < s.len() && s[i] == c;
        assert(rest[i] == c);
        lemma_filter_map_keeps(rest, f, c);
        let w = f(c).unwrap();
        let j = choose|j: int| 0 <= j < rest.filter_map(f).len() && rest.filter_map(f)[j] == w;
        assert(s.filter_map(f)[j] == w);
    }
}

} // verus!
