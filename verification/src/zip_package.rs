//! A Plugin package shipped as a zip archive: its entries, and where each one lands when the
//! package is unpacked under a directory.

use vstd::prelude::*;

use crate::text::{join_path, join_path_spec};

verus! {

/// One entry of a zip archive.
#[derive(Debug)]
pub struct ZipEntry {
    /// The name stored in the archive (a relative path; directories end in `/`).
    pub name: String,
    /// Whether the name stays inside the directory it is unpacked under.
    pub enclosed: bool,
    pub is_dir: bool,
    pub data: Vec<u8>,
}

/// A zip entry unpacked under a directory: where it goes and what it holds.
#[derive(Debug)]
pub struct UnpackedFile {
    pub path: String,
    pub is_dir: bool,
    pub data: Vec<u8>,
}

/// What the zip crate reads from `archive`: the name and contents of each entry, in archive
/// order, or its error text when the bytes are not a readable zip archive.
pub uninterp spec fn zip_listing(archive: Seq<u8>) -> Result<Seq<(Seq<char>, Seq<u8>)>, Seq<char>>;

/// The depth reached after path segment `seg`: `..` climbs one level, an empty segment or `.`
/// stays, any other name goes one level down.
pub open spec fn segment_depth(depth: int, seg: Seq<char>) -> int {
    if seg == seq!['.', '.'] {
        depth - 1
    } else if seg.len() == 0 || seg == seq!['.'] {
        depth
    } else {
        depth + 1
    }
}

/// Reading the rest `s` of a path at `depth`, inside segment `seg`, never climbs above the
/// start.
pub open spec fn stays_within(s: Seq<char>, depth: int, seg: Seq<char>) -> bool
    decreases s.len(),
{
    if s.len() == 0 {
        segment_depth(depth, seg) >= 0
    } else if s[0] == '/' {
        segment_depth(depth, seg) >= 0 && stays_within(s.drop_first(), segment_depth(depth, seg), Seq::empty())
    } else {
        stays_within(s.drop_first(), depth, seg.push(s[0]))
    }
}

/// `name` is safe to unpack: no NUL, not absolute, and no `..` leads out of the directory it is
/// unpacked under.
pub open spec fn enclosed_path(name: Seq<char>) -> bool {
    &&& !name.contains('\0')
    &&& (name.len() == 0 || name[0] != '/')
    &&& stays_within(name, 0, Seq::empty())
}

/// A name with neither a backslash nor a colon: it reads the same on every platform, since
/// only Windows also splits paths at backslashes and reads a leading `X:` as a drive.
pub open spec fn portable_name(name: Seq<char>) -> bool {
    !name.contains('\\') && !name.contains(':')
}

/// A portable name that stays inside the directory it is unpacked under: the zip crate
/// accepts it on every platform.
pub open spec fn surely_enclosed(name: Seq<char>) -> bool {
    portable_name(name) && enclosed_path(name)
}

/// A name the zip crate refuses on every platform: it holds a NUL, starts with a slash, or is
/// portable and leads out of the directory it is unpacked under.
pub open spec fn surely_unsafe(name: Seq<char>) -> bool {
    ||| name.contains('\0')
    ||| (name.len() > 0 && name[0] == '/')
    ||| (portable_name(name) && !enclosed_path(name))
}

/// An archive name denotes a directory when it ends in a slash.
pub open spec fn names_dir(name: Seq<char>) -> bool {
    name.len() > 0 && (name.last() == '/' || name.last() == '\\')
}

/// The entries of a zip archive as (name, contents) pairs.
pub open spec fn entries_view(es: Seq<ZipEntry>) -> Seq<(Seq<char>, Seq<u8>)> {
    es.map_values(|e: ZipEntry| (e.name@, e.data@))
}

/// Reads every entry of the zip archive `archive`, in archive order, with the zip crate
/// (`ZipArchive::new`, `by_index`, `read_to_end`, `name`, `enclosed_name`, `is_dir`). The
/// entries are the archive's as `zip_listing` names them, and `is_dir` follows the crate's
/// `is_dir`. `enclosed` is what `enclosed_name` decides, which reads the name with the
/// platform's path rules: on portable names (no backslash, no colon) that is `enclosed_path`
/// on every platform, and a name holding a NUL or starting with a slash is refused everywhere;
/// for other names it is left unsaid, as it differs between platforms. The error text is the
/// crate's.
#[verifier::external_body]
pub(crate) fn zip_entries(archive: &Vec<u8>) -> (r: Result<Vec<ZipEntry>, String>)
    ensures
        r matches Ok(es) ==> zip_listing(archive@) matches Ok(l) && l == entries_view(es@),
        r matches Err(m) ==> zip_listing(archive@) matches Err(t) && t == m@,
        r matches Ok(es) ==> forall|i: int|
            0 <= i < es@.len() ==> {
                &&& portable_name((#[trigger] es@[i]).name@) ==> es@[i].enclosed == enclosed_path(es@[i].name@)
                &&& es@[i].enclosed ==> !surely_unsafe(es@[i].name@)
                &&& es@[i].is_dir == names_dir(es@[i].name@)
            },
{
    let mut zip = zip::ZipArchive::new(std::io::Cursor::new(archive.as_slice())).map_err(|e| e.to_string())?;
    let mut out = Vec::new();
    for i in 0..zip.len() {
        let mut f = zip.by_index(i).map_err(|e| e.to_string())?;
        let mut data = Vec::new();
        std::io::Read::read_to_end(&mut f, &mut data).map_err(|e| e.to_string())?;
        out.push(ZipEntry { name: f.name().to_string(), enclosed: f.enclosed_name().is_some(), is_dir: f.is_dir(), data });
    }
    Ok(out)
}

/// Where each entry of a zip package lands under `root`: its path (`root` joined with the
/// entry's name) and whether it is a directory. Refused when some entry's name would leave
/// `root`.
pub fn extraction_plan(root: &str, entries: &Vec<ZipEntry>) -> (r: Result<Vec<(String, bool)>, String>)
    ensures
        (forall|i: int| 0 <= i < entries@.len() ==> (#[trigger] entries@[i]).enclosed) ==> r is Ok,
        r matches Err(m) ==> m@ == "zip entry has unsafe path"@ && exists|i: int|
            0 <= i < entries@.len() && !(#[trigger] entries@[i]).enclosed,
        r matches Ok(plan) ==> {
            &&& forall|i: int| 0 <= i < entries@.len() ==> (#[trigger] entries@[i]).enclosed
            &&& plan@.len() == entries@.len()
            &&& forall|i: int|
                0 <= i < plan@.len() ==> (#[trigger] plan@[i]).0@ == join_path_spec(root@, entries@[i].name@)
                    && plan@[i].1 == entries@[i].is_dir
        },
{
    let mut plan: Vec<(String, bool)> = Vec::new();
    let mut i: usize = 0;
    while i < entries.len()
        invariant
            i <= entries@.len(),
            plan@.len() == i,
            forall|j: int| 0 <= j < i ==> (#[trigger] entries@[j]).enclosed,
            forall|j: int|
                0 <= j < i ==> (#[trigger] plan@[j]).0@ == join_path_spec(root@, entries@[j].name@)
                    && plan@[j].1 == entries@[j].is_dir,
        decreases entries.len() - i,
    {
        let e = &entries[i];
        if !e.enclosed {
            return Err(String::from_str("zip entry has unsafe path"));
        }
        plan.push((join_path(root, e.name.as_str()), e.is_dir));
        i = i + 1;
    }
    Ok(plan)
}

/// Every name of listing `l` is accepted on every platform.
pub open spec fn all_surely_enclosed(l: Seq<(Seq<char>, Seq<u8>)>) -> bool {
    forall|i: int| 0 <= i < l.len() ==> surely_enclosed(#[trigger] l[i].0)
}

/// Some name of listing `l` is refused on every platform.
pub open spec fn some_surely_unsafe(l: Seq<(Seq<char>, Seq<u8>)>) -> bool {
    exists|i: int| 0 <= i < l.len() && surely_unsafe(#[trigger] l[i].0)
}

/// `files` are the entries of listing `l` unpacked under `root`, one for one and in order.
pub open spec fn unpacked_as(files: Seq<UnpackedFile>, root: Seq<char>, l: Seq<(Seq<char>, Seq<u8>)>) -> bool {
    &&& files.len() == l.len()
    &&& forall|i: int|
        0 <= i < l.len() ==> {
            &&& (#[trigger] files[i]).path@ == join_path_spec(root, l[i].0)
            &&& files[i].is_dir == names_dir(l[i].0)
            &&& files[i].data@ == l[i].1
        }
}

/// Unpacks the zip archive `archive` under `root`: every entry, in archive order, with the path
/// it lands at (`root` joined with its name) and its contents. Refused with the zip crate's
/// error text when the archive cannot be read, and when the crate finds some entry's name
/// would leave `root`.
pub fn unpack_zip(root: &str, archive: &Vec<u8>) -> (r: Result<Vec<UnpackedFile>, String>)
    ensures
        match zip_listing(archive@) {
            Err(t) => r matches Err(m) && m@ == t,
            Ok(l) => {
                &&& all_surely_enclosed(l) ==> (r matches Ok(files) && unpacked_as(files@, root@, l))
                &&& some_surely_unsafe(l) ==> (r matches Err(m) && m@ == "zip entry has unsafe path"@)
                &&& r matches Ok(files) ==> unpacked_as(files@, root@, l) && !some_surely_unsafe(l)
                &&& r matches Err(m) ==> m@ == "zip entry has unsafe path"@ && !all_surely_enclosed(l)
            },
        },
{
    let entries = zip_entries(archive)?;
    proof {
        let l = entries_view(entries@);
        assert forall|i: int| 0 <= i < entries@.len() implies #[trigger] l[i] == (entries@[i].name@, entries@[i].data@) by {}
        assert forall|i: int| 0 <= i < l.len() && surely_unsafe(#[trigger] l[i].0) implies !entries@[i].enclosed by {}
        assert forall|i: int| 0 <= i < entries@.len() && !(#[trigger] entries@[i]).enclosed implies !surely_enclosed(l[i].0) by {}
    }
    let plan = extraction_plan(root, &entries)?;
    let mut files: Vec<UnpackedFile> = Vec::new();
    let mut i: usize = 0;
    while i < plan.len()
        invariant
            i <= plan@.len(),
            plan@.len() == entries@.len(),
            files@.len() == i,
            forall|j: int|
                0 <= j < plan@.len() ==> (#[trigger] plan@[j]).0@ == join_path_spec(root@, entries@[j].name@)
                    && plan@[j].1 == entries@[j].is_dir,
            forall|j: int|
                0 <= j < i ==> (#[trigger] files@[j]).path@ == plan@[j].0@ && files@[j].is_dir == plan@[j].1
                    && files@[j].data@ == entries@[j].data@,
        decreases plan.len() - i,
    {
        let data = entries[i].data.clone();
        files.push(UnpackedFile { path: plan[i].0.clone(), is_dir: plan[i].1, data });
        i = i + 1;
    }
    proof {
        let l = entries_view(entries@);
        assert forall|j: int| 0 <= j < entries@.len() implies #[trigger] l[j] == (entries@[j].name@, entries@[j].data@) by {}
    }
    Ok(files)
}

} // verus!
