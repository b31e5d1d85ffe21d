//! The file formats pictures are saved in, chosen by the file's extension.
use vstd::prelude::*;
use crate::multipart::{lowercase, to_ascii_lower};
use crate::text::{chars_of, string_of};

verus! {

/// The extension `camino::Utf8Path::extension` finds in `path`: what follows
/// the last `.` of the file name, if it has one that does not start it.
pub uninterp spec fn camino_extension(path: Seq<char>) -> Option<Seq<char>>;

/// Calls `camino::Utf8Path::extension`. Trusted: the extension is a
/// function of the path alone; nothing more is said of it.
#[verifier::external_body]
fn path_extension(path: &str) -> (r: Option<String>)
    ensures
        r is Some == camino_extension(path@) is Some,
        r is Some ==> r->0@ == camino_extension(path@)->0,
{
    camino::Utf8Path::new(path).extension().map(|e| e.to_owned())
}

/// The formats pictures are saved in.
#[derive(Clone, Copy, Debug, PartialEq, Eq, Structural)]
pub enum PictureFormat {
    Png,
    Jpeg,
}

/// An extension that names no format the pictures are saved in; it holds the
/// lowercased extension.
#[derive(Clone, Debug)]
pub struct UnknownExtension {
    pub extension: String,
}

/// The format an extension names, compared without regard to ASCII case:
/// `png`, or `jpg` and `jpeg`.
pub open spec fn format_named(ext: Seq<char>) -> Option<PictureFormat> {
    let e = lowercase(ext);
    if e == seq!['p', 'n', 'g'] {
        Some(PictureFormat::Png)
    } else if e == seq!['j', 'p', 'g'] || e == seq!['j', 'p', 'e', 'g'] {
        Some(PictureFormat::Jpeg)
    } else {
        None
    }
}

/// The format a picture saved at `path` is written in: the one its
/// extension names, where it names one; a path without extension counts as
/// one with an empty extension.
pub open spec fn save_format_of(path: Seq<char>) -> Result<PictureFormat, Seq<char>> {
    let ext = match camino_extension(path) {
        Some(e) => e,
        None => Seq::empty(),
    };
    match format_named(ext) {
        Some(f) => Ok(f),
        None => Err(lowercase(ext)),
    }
}

fn lowercase_chars(s: &str) -> (v: Vec<char>)
    ensures
        v@ == lowercase(s@),
{
    let cs = chars_of(s);
    let mut v: Vec<char> = Vec::new();
    let mut i: usize = 0;
    while i < cs.len()
        invariant
            i <= cs@.len(),
            cs@ == s@,
            v@ == lowercase(s@).take(i as int),
        decreases cs@.len() - i,
    {
        v.push(to_ascii_lower(cs[i]));
        i = i + 1;
        assert(v@ =~= lowercase(s@).take(i as int));
    }
    assert(v@ =~= lowercase(s@));
    v
}

/// The format an extension names.
pub fn format_for_extension(ext: &str) -> (r: Result<PictureFormat, UnknownExtension>)
    ensures
        match format_named(ext@) {
            Some(f) => r == Ok::<PictureFormat, UnknownExtension>(f),
            None => r is Err && r->Err_0.extension@ == lowercase(ext@),
        },
{
    let v = lowercase_chars(ext);
    if v.len() == 3 && v[0] == 'p' && v[1] == 'n' && v[2] == 'g' {
        assert(v@ =~= seq!['p', 'n', 'g']);
        return Ok(PictureFormat::Png);
    }
    if v.len() == 3 && v[0] == 'j' && v[1] == 'p' && v[2] == 'g' {
        assert(v@ =~= seq!['j', 'p', 'g']);
        return Ok(PictureFormat::Jpeg);
    }
    if v.len() == 4 && v[0] == 'j' && v[1] == 'p' && v[2] == 'e' && v[3] == 'g' {
        assert(v@ =~= seq!['j', 'p', 'e', 'g']);
        return Ok(PictureFormat::Jpeg);
    }
    assert(v@ != seq!['p', 'n', 'g']) by {
        if v@ == seq!['p', 'n', 'g'] {
            assert(v@[0] == 'p' && v@[1] == 'n' && v@[2] == 'g');
        }
    }
    assert(v@ != seq!['j', 'p', 'g']) by {
        if v@ == seq!['j', 'p', 'g'] {
            assert(v@[0] == 'j' && v@[1] == 'p' && v@[2] == 'g');
        }
    }
    assert(v@ != seq!['j', 'p', 'e', 'g']) by {
        if v@ == seq!['j', 'p', 'e', 'g'] {
            assert(v@[0] == 'j' && v@[1] == 'p' && v@[2] == 'e' && v@[3] == 'g');
        }
    }
    Err(UnknownExtension { extension: string_of(&v) })
}

/// The format a picture saved at `path` is written in, or the extension
/// that names none.
pub fn save_format(path: &str) -> (r: Result<PictureFormat, UnknownExtension>)
    ensures
        match save_format_of(path@) {
            Ok(f) => r == Ok::<PictureFormat, UnknownExtension>(f),
            Err(e) => r is Err && r->Err_0.extension@ == e,
        },
{
    match path_extension(path) {
        Some(e) => format_for_extension(e.as_str()),
        None => {
            let r = format_for_extension("");
            proof {
                reveal_strlit("");
                assert(""@ =~= Seq::<char>::empty());
            }
            r
        },
    }
}

} // verus!
