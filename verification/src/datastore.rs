//! Where the detector keeps its data: the database file, the blobs (images,
//! animations, videos) and their thumbnails.
use vstd::prelude::*;
use crate::text::{chars_of, push_range, string_of};
use crate::ts::{file_ts_text, format_file_ts, push_all, Timestamp};

verus! {

/// The index of the last `c` in `s`.
pub open spec fn last_index(s: Seq<char>, c: char) -> Option<int>
    decreases s.len(),
{
    if s.len() == 0 {
        None
    } else if s.last() == c {
        Some(s.len() - 1)
    } else {
        last_index(s.drop_last(), c)
    }
}

pub proof fn lemma_last_index(s: Seq<char>, c: char)
    ensures
        match last_index(s, c) {
            Some(d) => 0 <= d < s.len() && s[d] == c && forall|j: int| d < j < s.len() ==> s[j] != c,
            None => forall|j: int| 0 <= j < s.len() ==> s[j] != c,
        },
    decreases s.len(),
{
    if s.len() > 0 && s.last() != c {
        let t = s.drop_last();
        lemma_last_index(t, c);
        assert(forall|j: int| 0 <= j < t.len() ==> t[j] == s[j]);
        assert(s[s.len() - 1] != c);
    }
}

/// `last_index` is the one index that holds `c` with no `c` after it.
pub proof fn lemma_last_index_is(s: Seq<char>, c: char, d: Option<int>)
    requires
        match d {
            Some(d) => 0 <= d < s.len() && s[d] == c && forall|j: int| d < j < s.len() ==> s[j] != c,
            None => forall|j: int| 0 <= j < s.len() ==> s[j] != c,
        },
    ensures
        last_index(s, c) == d,
    decreases s.len(),
{
    if s.len() > 0 && s.last() != c {
        lemma_last_index_is(s.drop_last(), c, d);
    }
}

/// The suffix that marks a thumbnail.
pub open spec fn thumb_mark() -> Seq<char> {
    seq!['.', 't', 'h', 'u', 'm', 'b']
}

/// The thumbnail name of a blob: `.thumb` goes before the last extension,
/// or at the end when there is none.
pub open spec fn thumb_name_of(n: Seq<char>) -> Seq<char> {
    match last_index(n, '.') {
        Some(d) => n.take(d) + thumb_mark() + n.skip(d),
        None => n + thumb_mark(),
    }
}

/// The blob name that a thumbnail name came from: drop the last extension;
/// if what is left has `.thumb` as its own extension, drop that instead.
pub open spec fn reverted_thumb_name(n: Seq<char>) -> Seq<char> {
    match last_index(n, '.') {
        None => n,
        Some(d) => {
            let w = n.take(d);
            match last_index(w, '.') {
                Some(d2) => if w.skip(d2) == thumb_mark() {
                    w.take(d2) + n.skip(d)
                } else {
                    n
                },
                None => w,
            }
        },
    }
}

fn last_dot(v: &Vec<char>) -> (r: Option<usize>)
    ensures
        match r {
            Some(d) => last_index(v@, '.') == Some(d as int) && d < v@.len(),
            None => last_index(v@, '.') is None,
        },
{
    let mut i = v.len();
    while i > 0
        invariant
            i <= v@.len(),
            forall|j: int| i <= j < v@.len() ==> v@[j] != '.',
        decreases i,
    {
        if v[i - 1] == '.' {
            proof {
                lemma_last_index_is(v@, '.', Some(i - 1));
            }
            return Some(i - 1);
        }
        i = i - 1;
    }
    proof {
        lemma_last_index_is(v@, '.', None);
    }
    None
}

fn push_thumb_mark(out: &mut Vec<char>)
    ensures
        final(out)@ == old(out)@ + thumb_mark(),
{
    let ghost start = out@;
    out.push('.');
    out.push('t');
    out.push('h');
    out.push('u');
    out.push('m');
    out.push('b');
    assert(out@ =~= start + thumb_mark());
}

/// Returns the thumbnail filename for a given blob filename:
/// `"pic.jpg"` gives `"pic.thumb.jpg"`, `"blob"` gives `"blob.thumb"`.
pub fn thumb_name(blob_name: &str) -> (s: String)
    ensures
        s@ == thumb_name_of(blob_name@),
{
    let v = chars_of(blob_name);
    let mut out: Vec<char> = Vec::new();
    match last_dot(&v) {
        Some(d) => {
            push_range(&mut out, &v, 0, d);
            push_thumb_mark(&mut out);
            push_range(&mut out, &v, d, v.len());
            assert(out@ =~= thumb_name_of(blob_name@));
        },
        None => {
            push_range(&mut out, &v, 0, v.len());
            push_thumb_mark(&mut out);
            assert(out@ =~= thumb_name_of(blob_name@));
        },
    }
    string_of(&out)
}

fn is_thumb_mark(v: &Vec<char>, from: usize, to: usize) -> (b: bool)
    requires
        from <= to <= v@.len(),
    ensures
        b == (v@.subrange(from as int, to as int) == thumb_mark()),
{
    if to - from != 6 {
        assert(v@.subrange(from as int, to as int).len() != thumb_mark().len());
        return false;
    }
    let b = v[from] == '.' && v[from + 1] == 't' && v[from + 2] == 'h' && v[from + 3] == 'u' && v[from
        + 4] == 'm' && v[from + 5] == 'b';
    if b {
        assert(v@.subrange(from as int, to as int) =~= thumb_mark());
    } else {
        let ghost s = v@.subrange(from as int, to as int);
        assert(s.len() == 6);
        assert(s != thumb_mark() || (s[0] == '.' && s[1] == 't' && s[2] == 'h' && s[3] == 'u' && s[4]
            == 'm' && s[5] == 'b'));
    }
    b
}

/// Inverts `thumb_name`: `"pic.thumb.jpg"` gives `"pic.jpg"`, `"blob.thumb"`
/// gives `"blob"`.
pub fn revert_thumb_name(name: &str) -> (s: String)
    ensures
        s@ == reverted_thumb_name(name@),
{
    let v = chars_of(name);
    let d = match last_dot(&v) {
        Some(d) => d,
        None => {
            return string_of(&v);
        },
    };
    let w: Vec<char> = {
        let mut w: Vec<char> = Vec::new();
        push_range(&mut w, &v, 0, d);
        w
    };
    assert(w@ =~= v@.take(d as int));
    let mut out: Vec<char> = Vec::new();
    match last_dot(&w) {
        Some(d2) => {
            if is_thumb_mark(&w, d2, w.len()) {
                push_range(&mut out, &w, 0, d2);
                push_range(&mut out, &v, d, v.len());
                assert(out@ =~= reverted_thumb_name(name@));
            } else {
                push_range(&mut out, &v, 0, v.len());
                assert(out@ =~= reverted_thumb_name(name@));
            }
        },
        None => {
            push_range(&mut out, &w, 0, w.len());
            assert(out@ =~= reverted_thumb_name(name@));
        },
    }
    string_of(&out)
}

/// A blob name comes back from its thumbnail name: `revert_thumb_name`
/// undoes `thumb_name` for every name.
pub proof fn law_revert_thumb_name_inverts_thumb_name(n: Seq<char>)
    ensures
        reverted_thumb_name(thumb_name_of(n)) == n,
{
    lemma_last_index(n, '.');
    let m = thumb_mark();
    match last_index(n, '.') {
        Some(d) => {
            let t = n.take(d) + m + n.skip(d);
            let e = d + 6;
            assert forall|j: int| e < j < t.len() implies t[j] != '.' by {
                assert(t[j] == n[j - 6]);
            }
            assert(t[e] == '.');
            lemma_last_index_is(t, '.', Some(e));
            let w = t.take(e);
            assert(w =~= n.take(d) + m);
            assert forall|j: int| d < j < w.len() implies w[j] != '.' by {
                assert(w[j] == m[j - d]);
            }
            assert(w[d] == '.');
            lemma_last_index_is(w, '.', Some(d));
            assert(w.skip(d) =~= m);
            assert(w.take(d) =~= n.take(d));
            assert(t.skip(e) =~= n.skip(d));
            assert(n.take(d) + n.skip(d) =~= n);
        },
        None => {
            let t = n + m;
            let e = n.len() as int;
            assert forall|j: int| e < j < t.len() implies t[j] != '.' by {
                assert(t[j] == m[j - e]);
            }
            lemma_last_index_is(t, '.', Some(e));
            assert(t.take(e) =~= n);
        },
    }
}

/// The path that `camino::Utf8Path::join` makes of `base` and `part`.
pub uninterp spec fn camino_join(base: Seq<char>, part: Seq<char>) -> Seq<char>;

/// Whether `p` is a relative path that joins onto `base` after a `/`: the
/// base is not empty and does not end with `/`, and `p` is not empty and
/// does not start with one.
pub open spec fn plain_join(base: Seq<char>, p: Seq<char>) -> bool {
    base.len() > 0 && base.last() != '/' && p.len() > 0 && p[0] != '/'
}

/// Calls `camino::Utf8Path::join`, which pushes the part onto the base as
/// `std::path::PathBuf::push` does. Trusted: an absolute part (one that
/// starts with `/`) replaces the base, and a relative part follows a base
/// that neither is empty nor ends with `/` after one separator. What comes
/// of an empty base, of a base that ends with `/` or of an empty part is
/// left to the name `camino_join`.
#[verifier::external_body]
fn join(base: &str, part: &str) -> (p: String)
    ensures
        p@ == camino_join(base@, part@),
        part@.len() > 0 && part@[0] == '/' ==> p@ == part@,
        plain_join(base@, part@) ==> p@ == base@ + seq!['/'] + part@,
{
    camino::Utf8Path::new(base).join(part).into_string()
}

/// `db.sqlite3`.
pub open spec fn db_file() -> Seq<char> {
    seq!['d', 'b', '.', 's', 'q', 'l', 'i', 't', 'e', '3']
}

/// `blobs`.
pub open spec fn blobs_dir_name() -> Seq<char> {
    seq!['b', 'l', 'o', 'b', 's']
}

/// `failed`.
pub open spec fn failed_dir_name() -> Seq<char> {
    seq!['f', 'a', 'i', 'l', 'e', 'd']
}

/// A thumbnail name starts with the blob name's first character.
proof fn lemma_thumb_name_starts_like(n: Seq<char>)
    ensures
        n.len() > 0 ==> thumb_name_of(n).len() > 0 && thumb_name_of(n)[0] == n[0],
{
    lemma_last_index(n, '.');
    if n.len() > 0 {
        match last_index(n, '.') {
            Some(d) => {
                let t = n.take(d) + thumb_mark() + n.skip(d);
                if d > 0 {
                    assert(t[0] == n[0]);
                } else {
                    assert(t[0] == thumb_mark()[0]);
                }
            },
            None => {
                assert((n + thumb_mark())[0] == n[0]);
            },
        }
    }
}

/// The data directory layout.
#[derive(Debug, Clone)]
pub struct DataStore {
    pub data_dir: String,
}

impl DataStore {
    pub fn new(data_dir: String) -> (ds: DataStore)
        ensures
            ds.data_dir@ == data_dir@,
    {
        DataStore { data_dir }
    }

    /// The database file: `<data_dir>/db.sqlite3`.
    pub fn db_path(&self) -> (p: String)
        ensures
            p@ == camino_join(self.data_dir@, db_file()),
            plain_join(self.data_dir@, db_file()) ==> p@ == self.data_dir@ + seq!['/'] + db_file(),
    {
        proof {
            reveal_strlit("db.sqlite3");
        }
        assert("db.sqlite3"@ =~= db_file());
        join(self.data_dir.as_str(), "db.sqlite3")
    }

    /// The directory of the blobs: `<data_dir>/blobs`.
    pub fn blobs_dir(&self) -> (p: String)
        ensures
            p@ == camino_join(self.data_dir@, blobs_dir_name()),
            plain_join(self.data_dir@, blobs_dir_name()) ==> p@ == self.data_dir@ + seq!['/']
                + blobs_dir_name(),
    {
        proof {
            reveal_strlit("blobs");
        }
        assert("blobs"@ =~= blobs_dir_name());
        join(self.data_dir.as_str(), "blobs")
    }

    /// The directory where videos of sequences that could not be stitched
    /// go: `<data_dir>/failed`.
    pub fn failed_dir(&self) -> (p: String)
        ensures
            p@ == camino_join(self.data_dir@, failed_dir_name()),
            plain_join(self.data_dir@, failed_dir_name()) ==> p@ == self.data_dir@ + seq!['/']
                + failed_dir_name(),
    {
        proof {
            reveal_strlit("failed");
        }
        assert("failed"@ =~= failed_dir_name());
        join(self.data_dir.as_str(), "failed")
    }

    /// A blob file: `<data_dir>/blobs/<name>`; an absolute `name` stands
    /// for itself.
    pub fn blob_path(&self, name: &str) -> (p: String)
        ensures
            p@ == camino_join(camino_join(self.data_dir@, blobs_dir_name()), name@),
            name@.len() > 0 && name@[0] == '/' ==> p@ == name@,
            plain_join(self.data_dir@, name@) ==> p@ == self.data_dir@ + seq!['/'] + blobs_dir_name()
                + seq!['/'] + name@,
    {
        let blobs = self.blobs_dir();
        proof {
            if plain_join(self.data_dir@, name@) {
                let b = self.data_dir@ + seq!['/'] + blobs_dir_name();
                assert(blobs@ == b);
                assert(b.last() == 's');
                assert(plain_join(blobs@, name@));
            }
        }
        join(blobs.as_str(), name)
    }

    /// The thumbnail of a blob: `<data_dir>/blobs/<thumb_name(name)>`.
    pub fn blob_thumb_path(&self, name: &str) -> (p: String)
        ensures
            p@ == camino_join(camino_join(self.data_dir@, blobs_dir_name()), thumb_name_of(name@)),
            plain_join(self.data_dir@, name@) ==> p@ == self.data_dir@ + seq!['/'] + blobs_dir_name()
                + seq!['/'] + thumb_name_of(name@),
    {
        let thumb = thumb_name(name);
        proof {
            lemma_thumb_name_starts_like(name@);
        }
        self.blob_path(thumb.as_str())
    }

    /// Where the video of a sequence that could not be stitched, taken at
    /// `ts`, is kept: `<data_dir>/failed/<file timestamp>.<extension>`.
    pub fn failed_path(&self, ts: &Timestamp, extension: &str) -> (p: String)
        ensures
            p@ == camino_join(
                camino_join(self.data_dir@, failed_dir_name()),
                file_ts_text(ts@) + seq!['.'] + extension@,
            ),
            plain_join(self.data_dir@, file_ts_text(ts@) + seq!['.'] + extension@) ==> p@
                == self.data_dir@ + seq!['/'] + failed_dir_name() + seq!['/'] + file_ts_text(ts@)
                + seq!['.'] + extension@,
    {
        let dir = self.failed_dir();
        let mut name = chars_of(format_file_ts(ts).as_str());
        name.push('.');
        let ext = chars_of(extension);
        push_all(&mut name, &ext);
        let name = string_of(&name);
        proof {
            let n = file_ts_text(ts@) + seq!['.'] + extension@;
            assert(name@ =~= n);
            if plain_join(self.data_dir@, n) {
                let d = self.data_dir@ + seq!['/'] + failed_dir_name();
                assert(dir@ == d);
                assert(d.last() == 'd');
                assert(plain_join(dir@, name@));
            }
        }
        join(dir.as_str(), name.as_str())
    }
}

/// Whether `name` is one of the blobs the database knows or the thumbnail
/// of one.
pub open spec fn is_known_blob(known: Seq<Seq<char>>, name: Seq<char>) -> bool {
    exists|k: int| 0 <= k < known.len() && (name == known[k] || name == thumb_name_of(#[trigger] known[k]))
}

pub open spec fn string_views(v: Seq<String>) -> Seq<Seq<char>> {
    v.map_values(|s: String| s@)
}

/// The files in the blob directory that belong to no blob the database
/// knows: neither a blob's own name nor its thumbnail name. They keep their
/// order.
pub open spec fn orphans(known: Seq<Seq<char>>, entries: Seq<Seq<char>>) -> Seq<Seq<char>> {
    entries.filter(unknown_to(known))
}

pub open spec fn unknown_to(known: Seq<Seq<char>>) -> spec_fn(Seq<char>) -> bool {
    |e: Seq<char>| !is_known_blob(known, e)
}

/// Lists the directory entries that are neither a known blob nor the
/// thumbnail of one.
pub fn orphaned_blobs(db_blobs: &Vec<String>, dir_entries: &Vec<String>) -> (r: Vec<String>)
    ensures
        string_views(r@) == orphans(string_views(db_blobs@), string_views(dir_entries@)),
{
    let ghost known = string_views(db_blobs@);
    let mut thumbs: Vec<String> = Vec::new();
    let mut i: usize = 0;
    while i < db_blobs.len()
        invariant
            i <= db_blobs@.len(),
            thumbs@.len() == i,
            known == string_views(db_blobs@),
            forall|k: int| 0 <= k < i ==> #[trigger] thumbs@[k]@ == thumb_name_of(db_blobs@[k]@),
        decreases db_blobs@.len() - i,
    {
        thumbs.push(thumb_name(db_blobs[i].as_str()));
        i = i + 1;
    }
    let mut out: Vec<String> = Vec::new();
    let mut j: usize = 0;
    while j < dir_entries.len()
        invariant
            j <= dir_entries@.len(),
            known == string_views(db_blobs@),
            thumbs@.len() == db_blobs@.len(),
            forall|k: int| 0 <= k < db_blobs@.len() ==> #[trigger] thumbs@[k]@ == thumb_name_of(db_blobs@[k]@),
            string_views(out@) == orphans(known, string_views(dir_entries@).take(j as int)),
        decreases dir_entries@.len() - j,
    {
        let name = &dir_entries[j];
        let mut found = false;
        let mut k: usize = 0;
        while k < db_blobs.len() && !found
            invariant
                k <= db_blobs@.len(),
                thumbs@.len() == db_blobs@.len(),
                known == string_views(db_blobs@),
                forall|m: int| 0 <= m < db_blobs@.len() ==> #[trigger] thumbs@[m]@ == thumb_name_of(db_blobs@[m]@),
                found <==> exists|m: int| 0 <= m < k && (name@ == known[m] || name@ == thumb_name_of(#[trigger] known[m])),
            decreases db_blobs@.len() - k,
        {
            if *name == db_blobs[k] || *name == thumbs[k] {
                found = true;
                assert(name@ == known[k as int] || name@ == thumb_name_of(known[k as int]));
            }
            k = k + 1;
        }
        let ghost ev = string_views(dir_entries@);
        assert(ev.take(j + 1) =~= ev.take(j as int).push(name@));
        assert(found == is_known_blob(known, name@));
        proof {
            ev.take(j as int).lemma_filter_push(name@, unknown_to(known));
        }
        let ghost before = out@;
        if !found {
            out.push(name.clone());
            assert(string_views(out@) =~= string_views(before).push(name@));
        }
        j = j + 1;
    }
    assert(string_views(dir_entries@).take(dir_entries@.len() as int) =~= string_views(dir_entries@));
    out
}

} // verus!
