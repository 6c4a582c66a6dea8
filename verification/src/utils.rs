//! Normalization rules of the decoder: extracting video and channel
//! identifiers from the recognized URL shapes, and the keyword scan
//! that classifies an export before it is parsed.
//!
//! The recognized shapes are `http` or `https`, an optional `www.`
//! (also `music.` for videos) host prefix, then `youtube.com/channel/`,
//! `youtube.com/c/`, `youtube.com/user/` or — for videos —
//! `youtube.com/watch?v=` or `youtu.be/`. A video identifier is exactly
//! eleven identifier characters; a channel identifier is the longest
//! nonempty run of them. The scan takes the leftmost position where a
//! shape matches; if none does, the raw string is kept verbatim.

use vstd::prelude::*;

use crate::text::{is_substring, occurs_at, occurs_at_exec};

verus! {

/// A character allowed in a video or channel identifier.
pub open spec fn is_id_char(c: char) -> bool {
    ||| 'a' <= c && c <= 'z'
    ||| 'A' <= c && c <= 'Z'
    ||| '0' <= c && c <= '9'
    ||| c == '_'
    ||| c == '-'
}

fn is_id_char_exec(c: char) -> (r: bool)
    ensures
        r == is_id_char(c),
{
    ('a' <= c && c <= 'z') || ('A' <= c && c <= 'Z') || ('0' <= c && c <= '9') || c == '_' || c
        == '-'
}

/// Index just past a protocol prefix at `i`, if one is there.
pub open spec fn proto_end(s: Seq<char>, i: int) -> Option<int> {
    if occurs_at(s, "http://"@, i) {
        Some(i + 7)
    } else if occurs_at(s, "https://"@, i) {
        Some(i + 8)
    } else {
        None
    }
}

/// Index past an optional video host prefix at `i`.
pub open spec fn vid_host_end(s: Seq<char>, i: int) -> int {
    if occurs_at(s, "www."@, i) {
        i + 4
    } else if occurs_at(s, "music."@, i) {
        i + 6
    } else {
        i
    }
}

/// Index past an optional channel host prefix at `i`.
pub open spec fn chan_host_end(s: Seq<char>, i: int) -> int {
    if occurs_at(s, "www."@, i) {
        i + 4
    } else {
        i
    }
}

/// Index past a channel path kind at `i`, if one is there.
pub open spec fn kind_end(s: Seq<char>, i: int) -> Option<int> {
    if occurs_at(s, "channel/"@, i) {
        Some(i + 8)
    } else if occurs_at(s, "c/"@, i) {
        Some(i + 2)
    } else if occurs_at(s, "user/"@, i) {
        Some(i + 5)
    } else {
        None
    }
}

/// Index past a video path kind at `i`, if one is there.
pub open spec fn vid_kind_end(s: Seq<char>, i: int) -> Option<int> {
    match kind_end(s, i) {
        Some(e) => Some(e),
        None => if occurs_at(s, "watch?v="@, i) {
            Some(i + 8)
        } else {
            None
        },
    }
}

/// Index past a full video URL prefix starting at `i`, if one is there.
pub open spec fn vid_prefix_end(s: Seq<char>, i: int) -> Option<int> {
    match proto_end(s, i) {
        None => None,
        Some(a) => if occurs_at(s, "youtu.be/"@, a) {
            Some(a + 9)
        } else {
            let h = vid_host_end(s, a);
            if occurs_at(s, "youtube.com/"@, h) {
                vid_kind_end(s, h + 12)
            } else {
                None
            }
        },
    }
}

/// Index past a full channel URL prefix starting at `i`, if one is there.
pub open spec fn chan_prefix_end(s: Seq<char>, i: int) -> Option<int> {
    match proto_end(s, i) {
        None => None,
        Some(a) => {
            let h = chan_host_end(s, a);
            if occurs_at(s, "youtube.com/"@, h) {
                kind_end(s, h + 12)
            } else {
                None
            }
        },
    }
}

/// Exactly `n` identifier characters sit at `i`.
pub open spec fn id_chars_at(s: Seq<char>, i: int, n: int) -> bool {
    &&& i + n <= s.len()
    &&& forall|j: int| i <= j < i + n ==> is_id_char(#[trigger] s[j])
}

/// Start of the eleven-character video identifier captured at `i`, if
/// the video pattern matches there.
pub open spec fn vid_at(s: Seq<char>, i: int) -> Option<int> {
    match vid_prefix_end(s, i) {
        Some(e) => if id_chars_at(s, e, 11) {
            Some(e)
        } else {
            None
        },
        None => None,
    }
}

/// End of the run of identifier characters starting at `i`.
pub open spec fn id_run_end(s: Seq<char>, i: int) -> int
    decreases s.len() - i,
{
    if 0 <= i && i < s.len() && is_id_char(s[i]) {
        id_run_end(s, i + 1)
    } else {
        i
    }
}

/// Capture bounds of the channel identifier at `i`, if the channel
/// pattern matches there with at least one identifier character.
pub open spec fn chan_at(s: Seq<char>, i: int) -> Option<(int, int)> {
    match chan_prefix_end(s, i) {
        Some(e) => if e < s.len() && is_id_char(s[e]) {
            Some((e, id_run_end(s, e)))
        } else {
            None
        },
        None => None,
    }
}

/// The leftmost video capture at or after `i`.
pub open spec fn vid_from(s: Seq<char>, i: int) -> Option<int>
    decreases s.len() - i,
{
    if !(0 <= i <= s.len()) {
        None
    } else if vid_at(s, i) is Some {
        vid_at(s, i)
    } else if i == s.len() {
        None
    } else {
        vid_from(s, i + 1)
    }
}

/// The leftmost channel capture at or after `i`.
pub open spec fn chan_from(s: Seq<char>, i: int) -> Option<(int, int)>
    decreases s.len() - i,
{
    if !(0 <= i <= s.len()) {
        None
    } else if chan_at(s, i) is Some {
        chan_at(s, i)
    } else if i == s.len() {
        None
    } else {
        chan_from(s, i + 1)
    }
}

/// The video identifier a URL-bearing string normalizes to: the capture
/// of the leftmost video pattern, or the string itself when none
/// matches.
pub open spec fn video_id_of(s: Seq<char>) -> Seq<char> {
    match vid_from(s, 0) {
        Some(e) => s.subrange(e, e + 11),
        None => s,
    }
}

/// The channel identifier a URL-bearing string normalizes to.
pub open spec fn channel_id_of(s: Seq<char>) -> Seq<char> {
    match chan_from(s, 0) {
        Some((a, b)) => s.subrange(a, b),
        None => s,
    }
}

fn proto_end_exec(s: &str, i: usize) -> (r: Option<usize>)
    requires
        s@.len() <= usize::MAX,
    ensures
        match r {
            Some(e) => proto_end(s@, i as int) == Some(e as int) && i <= e <= s@.len(),
            None => proto_end(s@, i as int) is None,
        },
{
    proof {
        reveal_strlit("http://");
        reveal_strlit("https://");
    }
    if occurs_at_exec(s, "http://", i) {
        Some(i + 7)
    } else if occurs_at_exec(s, "https://", i) {
        Some(i + 8)
    } else {
        None
    }
}

fn vid_host_end_exec(s: &str, i: usize) -> (r: usize)
    requires
        s@.len() <= usize::MAX,
        i <= s@.len(),
    ensures
        r as int == vid_host_end(s@, i as int),
        i <= r <= s@.len(),
{
    proof {
        reveal_strlit("www.");
        reveal_strlit("music.");
    }
    if occurs_at_exec(s, "www.", i) {
        i + 4
    } else if occurs_at_exec(s, "music.", i) {
        i + 6
    } else {
        i
    }
}

fn chan_host_end_exec(s: &str, i: usize) -> (r: usize)
    requires
        s@.len() <= usize::MAX,
        i <= s@.len(),
    ensures
        r as int == chan_host_end(s@, i as int),
        i <= r <= s@.len(),
{
    proof {
        reveal_strlit("www.");
    }
    if occurs_at_exec(s, "www.", i) {
        i + 4
    } else {
        i
    }
}

fn kind_end_exec(s: &str, i: usize) -> (r: Option<usize>)
    requires
        s@.len() <= usize::MAX,
        i <= s@.len(),
    ensures
        match r {
            Some(e) => kind_end(s@, i as int) == Some(e as int) && i <= e <= s@.len(),
            None => kind_end(s@, i as int) is None,
        },
{
    proof {
        reveal_strlit("channel/");
        reveal_strlit("c/");
        reveal_strlit("user/");
    }
    if occurs_at_exec(s, "channel/", i) {
        Some(i + 8)
    } else if occurs_at_exec(s, "c/", i) {
        Some(i + 2)
    } else if occurs_at_exec(s, "user/", i) {
        Some(i + 5)
    } else {
        None
    }
}

fn vid_kind_end_exec(s: &str, i: usize) -> (r: Option<usize>)
    requires
        s@.len() <= usize::MAX,
        i <= s@.len(),
    ensures
        match r {
            Some(e) => vid_kind_end(s@, i as int) == Some(e as int) && i <= e <= s@.len(),
            None => vid_kind_end(s@, i as int) is None,
        },
{
    proof {
        reveal_strlit("watch?v=");
    }
    match kind_end_exec(s, i) {
        Some(e) => Some(e),
        None => if occurs_at_exec(s, "watch?v=", i) {
            Some(i + 8)
        } else {
            None
        },
    }
}

fn vid_prefix_end_exec(s: &str, i: usize) -> (r: Option<usize>)
    requires
        s@.len() <= usize::MAX,
    ensures
        match r {
            Some(e) => vid_prefix_end(s@, i as int) == Some(e as int) && e <= s@.len(),
            None => vid_prefix_end(s@, i as int) is None,
        },
{
    proof {
        reveal_strlit("youtu.be/");
        reveal_strlit("youtube.com/");
    }
    match proto_end_exec(s, i) {
        None => None,
        Some(a) => if occurs_at_exec(s, "youtu.be/", a) {
            Some(a + 9)
        } else {
            let h = vid_host_end_exec(s, a);
            if occurs_at_exec(s, "youtube.com/", h) {
                vid_kind_end_exec(s, h + 12)
            } else {
                None
            }
        },
    }
}

fn chan_prefix_end_exec(s: &str, i: usize) -> (r: Option<usize>)
    requires
        s@.len() <= usize::MAX,
    ensures
        match r {
            Some(e) => chan_prefix_end(s@, i as int) == Some(e as int) && e <= s@.len(),
            None => chan_prefix_end(s@, i as int) is None,
        },
{
    proof {
        reveal_strlit("youtube.com/");
    }
    match proto_end_exec(s, i) {
        None => None,
        Some(a) => {
            let h = chan_host_end_exec(s, a);
            if occurs_at_exec(s, "youtube.com/", h) {
                kind_end_exec(s, h + 12)
            } else {
                None
            }
        },
    }
}

fn vid_at_exec(s: &str, i: usize) -> (r: Option<usize>)
    requires
        s@.len() <= usize::MAX,
    ensures
        match r {
            Some(e) => vid_at(s@, i as int) == Some(e as int) && e + 11 <= s@.len(),
            None => vid_at(s@, i as int) is None,
        },
{
    match vid_prefix_end_exec(s, i) {
        None => None,
        Some(e) => {
            let n = s.unicode_len();
            if n - e < 11 {
                proof {
                    assert(!id_chars_at(s@, e as int, 11));
                }
                return None;
            }
            let mut j: usize = 0;
            while j < 11
                invariant
                    j <= 11,
                    e + 11 <= n,
                    n == s@.len(),
                    vid_prefix_end(s@, i as int) == Some(e as int),
                    forall|k: int| e <= k < e + j ==> is_id_char(#[trigger] s@[k]),
                decreases 11 - j,
            {
                if !is_id_char_exec(s.get_char(e + j)) {
                    proof {
                        assert(!is_id_char(s@[e as int + j as int]));
                        assert(!id_chars_at(s@, e as int, 11));
                    }
                    return None;
                }
                j += 1;
            }
            Some(e)
        },
    }
}

fn id_run_end_exec(s: &str, e: usize) -> (r: usize)
    requires
        e <= s@.len(),
    ensures
        r as int == id_run_end(s@, e as int),
        e <= r <= s@.len(),
{
    let n = s.unicode_len();
    let mut r: usize = e;
    while r < n && is_id_char_exec(s.get_char(r))
        invariant
            e <= r <= n,
            n == s@.len(),
            id_run_end(s@, e as int) == id_run_end(s@, r as int),
        decreases n - r,
    {
        r += 1;
    }
    r
}

fn chan_at_exec(s: &str, i: usize) -> (r: Option<(usize, usize)>)
    requires
        s@.len() <= usize::MAX,
    ensures
        match r {
            Some(p) => chan_at(s@, i as int) == Some((p.0 as int, p.1 as int)) && p.0 <= p.1
                <= s@.len(),
            None => chan_at(s@, i as int) is None,
        },
{
    match chan_prefix_end_exec(s, i) {
        None => None,
        Some(e) => {
            let n = s.unicode_len();
            if e < n && is_id_char_exec(s.get_char(e)) {
                let b = id_run_end_exec(s, e);
                Some((e, b))
            } else {
                None
            }
        },
    }
}

/// Extract the eleven-character video identifier from a URL of one of
/// the recognized shapes; keep the raw string when none matches.
pub fn extract_youtube_video_id(haystack: String) -> (r: String)
    ensures
        r@ == video_id_of(haystack@),
{
    let s = haystack.as_str();
    let n = s.unicode_len();
    let mut i: usize = 0;
    while i < n
        invariant
            i <= n,
            n == s@.len(),
            s@ == haystack@,
            vid_from(s@, i as int) == vid_from(s@, 0),
        decreases n - i,
    {
        match vid_at_exec(s, i) {
            Some(e) => {
                let cap = s.substring_char(e, e + 11);
                return cap.to_owned();
            },
            None => {},
        }
        i += 1;
    }
    proof {
        assert(vid_at(s@, n as int) is None);
        assert(vid_from(s@, n as int) is None);
    }
    haystack
}

/// Extract the channel identifier (the path segment after `channel/`,
/// `c/` or `user/`) from a URL of one of the recognized shapes; keep
/// the raw string when none matches.
pub fn extract_youtube_channel_id(haystack: String) -> (r: String)
    ensures
        r@ == channel_id_of(haystack@),
{
    let s = haystack.as_str();
    let n = s.unicode_len();
    let mut i: usize = 0;
    while i < n
        invariant
            i <= n,
            n == s@.len(),
            s@ == haystack@,
            chan_from(s@, i as int) == chan_from(s@, 0),
        decreases n - i,
    {
        match chan_at_exec(s, i) {
            Some(p) => {
                let cap = s.substring_char(p.0, p.1);
                return cap.to_owned();
            },
            None => {},
        }
        i += 1;
    }
    proof {
        assert(chan_at(s@, n as int) is None);
        assert(chan_from(s@, n as int) is None);
    }
    haystack
}

/// A keyword occurs as a substring of some line.
pub open spec fn keyword_found(lines: Seq<Seq<char>>, key: Seq<char>) -> bool {
    exists|i: int| 0 <= i < lines.len() && is_substring(#[trigger] lines[i], key)
}

/// Every keyword occurs in some line.
pub open spec fn all_keywords_found(lines: Seq<Seq<char>>, keys: Seq<Seq<char>>) -> bool {
    forall|k: int| 0 <= k < keys.len() ==> keyword_found(lines, #[trigger] keys[k])
}

/// The character sequences of a sequence of strings.
pub open spec fn str_views(strs: Seq<String>) -> Seq<Seq<char>> {
    strs.map_values(|s: String| s@)
}

fn any_line_contains(lines: &Vec<String>, key: &String) -> (r: bool)
    ensures
        r == keyword_found(str_views(lines@), key@),
{
    let mut i: usize = 0;
    while i < lines.len()
        invariant
            i <= lines@.len(),
            forall|k: int| 0 <= k < i ==> !is_substring(#[trigger] str_views(lines@)[k], key@),
        decreases lines@.len() - i,
    {
        if crate::text::contains_sub(lines[i].as_str(), key.as_str()) {
            proof {
                assert(is_substring(str_views(lines@)[i as int], key@));
            }
            return true;
        }
        i += 1;
    }
    false
}

/// The keyword gate that classifies an export: true exactly when every
/// required marker occurs in some line of the input.
pub fn is_buffer_contains_keywords(lines: &Vec<String>, keys: &Vec<String>) -> (r: bool)
    ensures
        r == all_keywords_found(str_views(lines@), str_views(keys@)),
{
    let mut k: usize = 0;
    while k < keys.len()
        invariant
            k <= keys@.len(),
            forall|j: int|
                0 <= j < k ==> keyword_found(str_views(lines@), #[trigger] str_views(keys@)[j]),
        decreases keys@.len() - k,
    {
        if !any_line_contains(lines, &keys[k]) {
            proof {
                assert(!keyword_found(str_views(lines@), str_views(keys@)[k as int]));
            }
            return false;
        }
        k += 1;
    }
    true
}

} // verus!
