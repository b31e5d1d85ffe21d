//! Train sightings as the database stores them.
use vstd::prelude::*;
use crate::text::{chars_of, string_of};
use crate::ts::{Timestamp, format_file_ts, file_ts_text, push_all};

verus! {

/// A stored sighting: its row id and when it started.
#[derive(Debug, Clone, Copy, PartialEq, Eq)]
pub struct Train {
    pub id: i64,
    pub start_ts: Timestamp,
}

/// `train_<file timestamp>.<extension>`.
pub open spec fn train_file_name(ts: (i64, u32, i32), extension: Seq<char>) -> Seq<char> {
    seq!['t', 'r', 'a', 'i', 'n', '_'] + file_ts_text(ts) + seq!['.'] + extension
}

impl Train {
    /// The name of the sighting's blob with this extension.
    pub fn file_name(&self, extension: &str) -> (s: String)
        ensures
            s@ == train_file_name(self.start_ts@, extension@),
    {
        let mut out: Vec<char> = Vec::new();
        out.push('t');
        out.push('r');
        out.push('a');
        out.push('i');
        out.push('n');
        out.push('_');
        let ts = format_file_ts(&self.start_ts);
        let tsc = chars_of(ts.as_str());
        push_all(&mut out, &tsc);
        out.push('.');
        let ext = chars_of(extension);
        push_all(&mut out, &ext);
        assert(out@ =~= train_file_name(self.start_ts@, extension@));
        string_of(&out)
    }

    /// The name of the stitched image: `train_<timestamp>.jpg`.
    pub fn img_file_name(&self) -> (s: String)
        ensures
            s@ == train_file_name(self.start_ts@, "jpg"@),
    {
        self.file_name("jpg")
    }

    /// The name of the animation: `train_<timestamp>.gif`.
    pub fn gif_file_name(&self) -> (s: String)
        ensures
            s@ == train_file_name(self.start_ts@, "gif"@),
    {
        self.file_name("gif")
    }
}

} // verus!
