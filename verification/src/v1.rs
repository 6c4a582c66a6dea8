//! The one recognized export schema: its raw record shape and the
//! normalization rules applied while decoding it.

use vstd::prelude::*;

use crate::schema::{Channel, ChannelView};
use crate::text::{occurs_at, occurs_at_exec};
use crate::utils::{channel_id_of, extract_youtube_channel_id, extract_youtube_video_id, video_id_of};

verus! {

/// One raw watch event of the recognized export schema, already
/// normalized: the video identifier extracted from its URL, the title
/// stripped of its `"Watched "` prefix, the channel taken from the
/// first subtitle entry, and the watch time as seconds since the Unix
/// epoch.
pub struct Schema {
    pub id: String,
    pub title: String,
    pub time: i64,
    pub channel: Channel,
}

pub ghost struct SchemaView {
    pub id: Seq<char>,
    pub title: Seq<char>,
    pub time: int,
    pub channel: ChannelView,
}

impl View for Schema {
    type V = SchemaView;

    open spec fn view(&self) -> SchemaView {
        SchemaView {
            id: self.id@,
            title: self.title@,
            time: self.time as int,
            channel: self.channel@,
        }
    }
}

/// The title as displayed: the export prefixes every title with
/// `"Watched "`; that prefix is stripped when present.
pub open spec fn title_of(s: Seq<char>) -> Seq<char> {
    if occurs_at(s, "Watched "@, 0) {
        s.skip(8)
    } else {
        s
    }
}

/// Strip the export's `"Watched "` title prefix, if present.
pub fn normalize_title(title: String) -> (r: String)
    ensures
        r@ == title_of(title@),
{
    proof {
        reveal_strlit("Watched ");
    }
    let s = title.as_str();
    let n = s.unicode_len();
    if occurs_at_exec(s, "Watched ", 0) {
        let rest = s.substring_char(8, n);
        proof {
            assert(rest@ =~= title@.skip(8));
        }
        rest.to_owned()
    } else {
        title
    }
}

/// The channel of a raw record: the first subtitle entry — given as a
/// `(channel URL, display name)` pair — with its URL normalized to a
/// channel identifier, or the placeholder when the list is empty.
/// Entries after the first are ignored.
pub fn normalize_channel(subtitles: Vec<(String, String)>) -> (r: Channel)
    ensures
        subtitles@.len() == 0 ==> r@.id == "-"@ && r@.name == "-"@,
        subtitles@.len() > 0 ==> r@.id == channel_id_of(subtitles@[0].0@) && r@.name
            == subtitles@[0].1@,
{
    if subtitles.len() == 0 {
        Channel::placeholder()
    } else {
        let mut subs = subtitles;
        let first = subs.remove(0);
        Channel { id: extract_youtube_channel_id(first.0), name: first.1 }
    }
}

impl Schema {
    /// Decode one raw export record from its already-typed parts,
    /// applying every normalization rule of the recognized schema.
    pub fn from_parts(
        title_url: String,
        title: String,
        time: i64,
        subtitles: Vec<(String, String)>,
    ) -> (r: Schema)
        ensures
            r@.id == video_id_of(title_url@),
            r@.title == title_of(title@),
            r@.time == time as int,
            subtitles@.len() == 0 ==> r@.channel.id == "-"@ && r@.channel.name == "-"@,
            subtitles@.len() > 0 ==> r@.channel.id == channel_id_of(subtitles@[0].0@)
                && r@.channel.name == subtitles@[0].1@,
    {
        Schema {
            id: extract_youtube_video_id(title_url),
            title: normalize_title(title),
            time,
            channel: normalize_channel(subtitles),
        }
    }
}

} // verus!
