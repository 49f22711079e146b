//! Links: a named reference to a file, a directory, or a URL, together with
//! the path-string logic that names a link and picks a quick-launch target.
//!
//! Classifying a raw string needs a filesystem probe, and naming a URL needs
//! its page title; both are handed in by the caller as plain values.

use vstd::prelude::*;

verus! {

/// A reference held by an entry: a file path, a directory path, or a URL.
pub enum Link {
    File(String),
    Directory(String),
    Url(String),
}

/// The mathematical value of a [`Link`].
pub enum LinkV {
    File(Seq<char>),
    Directory(Seq<char>),
    Url(Seq<char>),
}

impl View for Link {
    type V = LinkV;

    open spec fn view(&self) -> LinkV {
        match self {
            Link::File(s) => LinkV::File(s@),
            Link::Directory(s) => LinkV::Directory(s@),
            Link::Url(s) => LinkV::Url(s@),
        }
    }
}

impl LinkV {
    /// The raw string a link was built from.
    pub open spec fn text(self) -> Seq<char> {
        match self {
            LinkV::File(s) => s,
            LinkV::Directory(s) => s,
            LinkV::Url(s) => s,
        }
    }
}

impl Clone for Link {
    fn clone(&self) -> (r: Self)
        ensures
            r@ == self@,
    {
        match self {
            Link::File(s) => Link::File(clone_string(s)),
            Link::Directory(s) => Link::Directory(clone_string(s)),
            Link::Url(s) => Link::Url(clone_string(s)),
        }
    }
}

/// Clones a string; the copy reads the same.
pub fn clone_string(s: &String) -> (r: String)
    ensures
        r@ == s@,
{
    s.clone()
}

/// How a raw string is classified: an absolute path names a file or a
/// directory (whichever the filesystem probe reported), anything else a URL.
pub open spec fn spec_link_from_parts(s: Seq<char>, is_absolute: bool, is_dir: bool) -> LinkV {
    if is_absolute {
        if is_dir {
            LinkV::Directory(s)
        } else {
            LinkV::File(s)
        }
    } else {
        LinkV::Url(s)
    }
}

impl Link {
    /// Classifies a raw string.  `is_absolute` and `is_dir` are the caller's
    /// filesystem probe of that string.
    pub fn from_parts(s: String, is_absolute: bool, is_dir: bool) -> (r: Self)
        ensures
            r == (if is_absolute {
                if is_dir {
                    Link::Directory(s)
                } else {
                    Link::File(s)
                }
            } else {
                Link::Url(s)
            }),
            r@ == spec_link_from_parts(s@, is_absolute, is_dir),
    {
        if is_absolute {
            if is_dir {
                Link::Directory(s)
            } else {
                Link::File(s)
            }
        } else {
            Link::Url(s)
        }
    }

    /// The raw string behind the link.
    pub fn as_str(&self) -> (r: &str)
        ensures
            r@ == self@.text(),
    {
        match self {
            Link::File(s) => s.as_str(),
            Link::Directory(s) => s.as_str(),
            Link::Url(s) => s.as_str(),
        }
    }
}

// ---------------------------------------------------------------------------
// Path-string logic: the final component of a path and its extension.
// ---------------------------------------------------------------------------

/// Length of `s` once trailing separators are stripped.
pub open spec fn trimmed_len(s: Seq<char>) -> int
    decreases s.len(),
{
    if s.len() == 0 {
        0
    } else if s.last() == '/' {
        trimmed_len(s.drop_last())
    } else {
        s.len() as int
    }
}

/// Start of the final path component of `s`, scanning left from `e`.
pub open spec fn name_start(s: Seq<char>, e: int) -> int
    decreases e,
{
    if e <= 0 || s[e - 1] == '/' {
        e
    } else {
        name_start(s, e - 1)
    }
}

/// The final component of a path: what stands after the last separator, with
/// trailing separators ignored.  Empty when the path is empty or all
/// separators.
pub open spec fn spec_basename(s: Seq<char>) -> Seq<char> {
    s.subrange(name_start(s, trimmed_len(s)), trimmed_len(s))
}

/// Computes the final component of a path.
pub fn basename(s: &str) -> (r: String)
    ensures
        r@ == spec_basename(s@),
{
    let len = s.unicode_len();
    proof {
        assert(s@.take(len as int) =~= s@);
    }
    let mut end = len;
    while end > 0 && s.get_char(end - 1) == '/'
        invariant
            0 <= end <= s@.len(),
            trimmed_len(s@) == trimmed_len(s@.take(end as int)),
        decreases end,
    {
        proof {
            assert(s@.take(end as int).last() == s@[end - 1]);
            assert(s@.take(end as int).drop_last() =~= s@.take(end - 1));
        }
        end = end - 1;
    }
    proof {
        if end == 0 {
            assert(s@.take(0).len() == 0);
        } else {
            assert(s@.take(end as int).last() == s@[end - 1]);
        }
        assert(trimmed_len(s@) == end as int);
    }
    let mut start = end;
    while start > 0 && s.get_char(start - 1) != '/'
        invariant
            0 <= start <= end <= s@.len(),
            trimmed_len(s@) == end as int,
            name_start(s@, end as int) == name_start(s@, start as int),
        decreases start,
    {
        start = start - 1;
    }
    proof {
        assert(name_start(s@, start as int) == start as int);
    }
    let part = s.substring_char(start, end);
    part.to_owned()
}

/// Index of the last `.` of `b`, or `-1` when there is none.
pub open spec fn last_dot(b: Seq<char>) -> int
    decreases b.len(),
{
    if b.len() == 0 {
        -1
    } else if b.last() == '.' {
        b.len() - 1
    } else {
        last_dot(b.drop_last())
    }
}

/// The extension of a path component: what stands after its last `.`, unless
/// that dot is its first character or missing.
pub open spec fn spec_extension(b: Seq<char>) -> Option<Seq<char>> {
    let d = last_dot(b);
    if d > 0 {
        Option::Some(b.subrange(d + 1, b.len() as int))
    } else {
        Option::None
    }
}

/// The extension of a path: the extension of its final component.
pub open spec fn spec_path_extension(s: Seq<char>) -> Option<Seq<char>> {
    spec_extension(spec_basename(s))
}

/// Computes the extension of a path component.
pub fn extension_of(b: &str) -> (r: Option<String>)
    ensures
        match r {
            Option::Some(e) => spec_extension(b@) == Option::Some(e@),
            Option::None => spec_extension(b@) is None,
        },
{
    let len = b.unicode_len();
    proof {
        assert(b@.take(len as int) =~= b@);
    }
    let mut i = len;
    while i > 0 && b.get_char(i - 1) != '.'
        invariant
            0 <= i <= b@.len(),
            last_dot(b@) == last_dot(b@.take(i as int)),
        decreases i,
    {
        proof {
            assert(b@.take(i as int).last() == b@[i - 1]);
            assert(b@.take(i as int).drop_last() =~= b@.take(i - 1));
        }
        i = i - 1;
    }
    proof {
        if i == 0 {
            assert(b@.take(0).len() == 0);
        } else {
            assert(b@.take(i as int).last() == b@[i - 1]);
        }
        assert(last_dot(b@) == i - 1);
    }
    if i > 1 {
        let part = b.substring_char(i, len);
        Option::Some(part.to_owned())
    } else {
        Option::None
    }
}

/// Computes the extension of a path.
pub fn path_extension(s: &str) -> (r: Option<String>)
    ensures
        match r {
            Option::Some(e) => spec_path_extension(s@) == Option::Some(e@),
            Option::None => spec_path_extension(s@) is None,
        },
{
    let b = basename(s);
    extension_of(b.as_str())
}

// ---------------------------------------------------------------------------
// Naming a link.
// ---------------------------------------------------------------------------

/// The name inferred for a link: the final path component for a file or a
/// directory; for a URL its page title when one was found, else the URL.
pub open spec fn spec_infer_name(l: LinkV, url_title: Option<Seq<char>>) -> Seq<char> {
    match l {
        LinkV::File(s) => spec_basename(s),
        LinkV::Directory(s) => spec_basename(s),
        LinkV::Url(s) => match url_title {
            Option::Some(t) => t,
            Option::None => s,
        },
    }
}

// ---------------------------------------------------------------------------
// The preferred file of a directory: the quick-launch target.
// ---------------------------------------------------------------------------

/// One file of a directory listing, as the caller read it: its path and
/// whether it is itself a directory.
pub struct DirFile {
    pub path: String,
    pub is_dir: bool,
}

/// The mathematical value of a [`DirFile`].
pub struct DirFileV {
    pub path: Seq<char>,
    pub is_dir: bool,
}

impl View for DirFile {
    type V = DirFileV;

    open spec fn view(&self) -> DirFileV {
        DirFileV { path: self.path@, is_dir: self.is_dir }
    }
}

impl Clone for DirFile {
    fn clone(&self) -> (r: Self)
        ensures
            r@ == self@,
    {
        DirFile { path: clone_string(&self.path), is_dir: self.is_dir }
    }
}

/// A quick-launch target: the link to open and the suffix that chose it.
pub struct PreferredFile {
    pub file: Link,
    pub extension: Option<String>,
}

impl PreferredFile {
    pub fn new(file: Link, extension: Option<String>) -> (r: Self)
        ensures
            r.file == file,
            r.extension == extension,
    {
        Self { file, extension }
    }
}

/// The files whose extension is exactly `suf`, in listing order.
pub open spec fn files_with_ext(files: Seq<DirFileV>, suf: Seq<char>) -> Seq<DirFileV>
    decreases files.len(),
{
    if files.len() == 0 {
        Seq::empty()
    } else if spec_path_extension(files.last().path) == Option::Some(suf) {
        files_with_ext(files.drop_last(), suf) + seq![files.last()]
    } else {
        files_with_ext(files.drop_last(), suf)
    }
}

/// All (suffix, file) pairs a layer matches, suffixes in layer order, files
/// in listing order within a suffix.
pub open spec fn layer_candidates(layer: Seq<Seq<char>>, files: Seq<DirFileV>) -> Seq<
    (Seq<char>, DirFileV),
>
    decreases layer.len(),
{
    if layer.len() == 0 {
        Seq::empty()
    } else {
        layer_candidates(layer.drop_last(), files) + files_with_ext(files, layer.last()).map_values(
            |f: DirFileV| (layer.last(), f),
        )
    }
}

/// The quick-launch choice: the first layer that matches exactly one file
/// chooses it; a layer that matches several files settles the question with
/// no choice; a layer that matches none passes to the next.
pub open spec fn spec_preferred(layers: Seq<Seq<Seq<char>>>, files: Seq<DirFileV>) -> Option<
    (Seq<char>, DirFileV),
>
    decreases layers.len(),
{
    if layers.len() == 0 {
        Option::None
    } else {
        let c = layer_candidates(layers[0], files);
        if c.len() == 1 {
            Option::Some(c[0])
        } else if c.len() >= 2 {
            Option::None
        } else {
            spec_preferred(layers.drop_first(), files)
        }
    }
}

/// The views of a directory listing.
pub open spec fn files_view(files: Seq<DirFile>) -> Seq<DirFileV> {
    files.map_values(|f: DirFile| f@)
}

/// The views of one layer of suffixes.
pub open spec fn layer_view(layer: Seq<String>) -> Seq<Seq<char>> {
    layer.map_values(|p: String| p@)
}

/// The views of the configured layers.
pub open spec fn layers_view(layers: Seq<Vec<String>>) -> Seq<Seq<Seq<char>>> {
    layers.map_values(|l: Vec<String>| layer_view(l@))
}

/// Tests whether a listed file's extension is exactly `suf`.
fn ext_matches(file: &DirFile, suf: &String) -> (r: bool)
    ensures
        r == (spec_path_extension(file.path@) == Option::Some(suf@)),
{
    match path_extension(file.path.as_str()) {
        Option::Some(e) => crate::config::str_eq(e.as_str(), suf.as_str()),
        Option::None => false,
    }
}

/// Collects every (suffix, file) pair one layer matches.
fn collect_candidates(layer: &Vec<String>, files: &Vec<DirFile>) -> (r: Vec<(String, DirFile)>)
    ensures
        r@.map_values(|p: (String, DirFile)| (p.0@, p.1@)) == layer_candidates(
            layer_view(layer@),
            files_view(files@),
        ),
{
    let mut r: Vec<(String, DirFile)> = Vec::new();
    let mut i: usize = 0;
    proof {
        assert(layer_view(layer@).take(0) =~= Seq::<Seq<char>>::empty());
        assert(r@.map_values(|p: (String, DirFile)| (p.0@, p.1@)) =~= layer_candidates(
            layer_view(layer@).take(0),
            files_view(files@),
        ));
    }
    while i < layer.len()
        invariant
            0 <= i <= layer@.len(),
            r@.map_values(|p: (String, DirFile)| (p.0@, p.1@)) == layer_candidates(
                layer_view(layer@).take(i as int),
                files_view(files@),
            ),
        decreases layer@.len() - i,
    {
        let suf = &layer[i];
        let mut j: usize = 0;
        proof {
            assert(files_view(files@).take(0) =~= Seq::<DirFileV>::empty());
            assert(files_with_ext(files_view(files@).take(0), suf@).map_values(
                |f: DirFileV| (suf@, f),
            ) =~= Seq::<(Seq<char>, DirFileV)>::empty());
            assert(r@.map_values(|p: (String, DirFile)| (p.0@, p.1@)) =~= layer_candidates(
                layer_view(layer@).take(i as int),
                files_view(files@),
            ) + files_with_ext(files_view(files@).take(0), suf@).map_values(
                |f: DirFileV| (suf@, f),
            ));
        }
        while j < files.len()
            invariant
                0 <= i < layer@.len(),
                0 <= j <= files@.len(),
                suf@ == layer_view(layer@)[i as int],
                r@.map_values(|p: (String, DirFile)| (p.0@, p.1@)) == layer_candidates(
                    layer_view(layer@).take(i as int),
                    files_view(files@),
                ) + files_with_ext(files_view(files@).take(j as int), suf@).map_values(
                    |f: DirFileV| (suf@, f),
                ),
            decreases files@.len() - j,
        {
            let ghost before = r@.map_values(|p: (String, DirFile)| (p.0@, p.1@));
            if ext_matches(&files[j], suf) {
                r.push((clone_string(suf), files[j].clone()));
                proof {
                    assert(r@.map_values(|p: (String, DirFile)| (p.0@, p.1@)) =~= before + seq![
                        (suf@, files@[j as int]@),
                    ]);
                }
            }
            proof {
                let fv = files_view(files@);
                assert(fv.take(j + 1).drop_last() =~= fv.take(j as int));
                assert(fv.take(j + 1).last() == files@[j as int]@);
                assert(files_with_ext(fv.take(j + 1), suf@).map_values(|f: DirFileV| (suf@, f))
                    =~= files_with_ext(fv.take(j as int), suf@).map_values(
                    |f: DirFileV| (suf@, f),
                ) + (if spec_path_extension(files@[j as int]@.path) == Option::Some(suf@) {
                    seq![(suf@, files@[j as int]@)]
                } else {
                    Seq::<(Seq<char>, DirFileV)>::empty()
                }));
                assert(r@.map_values(|p: (String, DirFile)| (p.0@, p.1@)) =~= layer_candidates(
                    layer_view(layer@).take(i as int),
                    files_view(files@),
                ) + files_with_ext(fv.take(j + 1), suf@).map_values(|f: DirFileV| (suf@, f)));
            }
            j = j + 1;
        }
        proof {
            let lv = layer_view(layer@);
            assert(files_view(files@).take(files@.len() as int) =~= files_view(files@));
            assert(lv.take(i + 1).drop_last() =~= lv.take(i as int));
            assert(lv.take(i + 1).last() == suf@);
            assert(r@.map_values(|p: (String, DirFile)| (p.0@, p.1@)) =~= layer_candidates(
                lv.take(i + 1),
                files_view(files@),
            ));
        }
        i = i + 1;
    }
    proof {
        assert(layer_view(layer@).take(layer@.len() as int) =~= layer_view(layer@));
    }
    r
}

impl Link {
    /// Picks the quick-launch target.  For a directory, `dir_files` is the
    /// caller's listing of it and `layers` the configured suffix layers: the
    /// first layer matching exactly one file chooses it.  A file is its own
    /// target; a URL has none.
    pub fn preferred_file(&self, dir_files: &Vec<DirFile>, layers: &Vec<Vec<String>>) -> (r:
        Option<PreferredFile>)
        ensures
            ({
                match self@ {
                    LinkV::Url(_) => r is None,
                    LinkV::File(p) => r matches Option::Some(pf) && pf.file@ == self@ && (
                    match pf.extension {
                        Option::Some(e) => spec_path_extension(p) == Option::Some(e@),
                        Option::None => spec_path_extension(p) is None,
                    }),
                    LinkV::Directory(_) => match spec_preferred(
                        layers_view(layers@),
                        files_view(dir_files@),
                    ) {
                        Option::None => r is None,
                        Option::Some((suf, f)) => r matches Option::Some(pf) && pf.file@ == (
                        if f.is_dir {
                            LinkV::Directory(f.path)
                        } else {
                            LinkV::File(f.path)
                        }) && (pf.extension matches Option::Some(e) && e@ == suf),
                    },
                }
            }),
    {
        match self {
            Link::Url(_) => Option::None,
            Link::File(p) => {
                let ext = path_extension(p.as_str());
                Option::Some(PreferredFile::new(self.clone(), ext))
            },
            Link::Directory(_) => {
                let mut i: usize = 0;
                proof {
                    assert(layers_view(layers@).skip(0) =~= layers_view(layers@));
                }
                while i < layers.len()
                    invariant
                        0 <= i <= layers@.len(),
                        self@ is Directory,
                        spec_preferred(layers_view(layers@), files_view(dir_files@))
                            == spec_preferred(
                            layers_view(layers@).skip(i as int),
                            files_view(dir_files@),
                        ),
                    decreases layers@.len() - i,
                {
                    let mut cands = collect_candidates(&layers[i], dir_files);
                    proof {
                        let lsv = layers_view(layers@);
                        assert(lsv.skip(i as int)[0] == lsv[i as int]);
                        assert(lsv.skip(i as int).drop_first() =~= lsv.skip(i + 1));
                        assert(cands@.map_values(|p: (String, DirFile)| (p.0@, p.1@)).len()
                            == layer_candidates(lsv[i as int], files_view(dir_files@)).len());
                    }
                    if cands.len() == 1 {
                        let (suf, file) = cands.remove(0);
                        proof {
                            let c = layer_candidates(
                                layers_view(layers@)[i as int],
                                files_view(dir_files@),
                            );
                            assert(c[0] == (suf@, file@));
                        }
                        let link = if file.is_dir {
                            Link::Directory(file.path)
                        } else {
                            Link::File(file.path)
                        };
                        return Option::Some(PreferredFile::new(link, Option::Some(suf)));
                    }
                    if cands.len() > 1 {
                        return Option::None;
                    }
                    i = i + 1;
                }
                proof {
                    assert(layers_view(layers@).skip(layers@.len() as int) =~= Seq::<
                        Seq<Seq<char>>,
                    >::empty());
                }
                Option::None
            },
        }
    }

    /// Infers a display name.  `url_title` is the page title the caller
    /// scraped for a URL link, if any; it is ignored for paths.
    pub fn infer_name(&self, url_title: Option<String>) -> (r: String)
        requires
            match self@ {
                LinkV::File(s) => spec_basename(s).len() > 0,
                LinkV::Directory(s) => spec_basename(s).len() > 0,
                LinkV::Url(_) => true,
            },
        ensures
            r@ == spec_infer_name(self@, match url_title {
                Option::Some(t) => Option::Some(t@),
                Option::None => Option::None,
            }),
    {
        match self {
            Link::File(s) => basename(s.as_str()),
            Link::Directory(s) => basename(s.as_str()),
            Link::Url(s) => match url_title {
                Option::Some(t) => t,
                Option::None => clone_string(s),
            },
        }
    }
}

} // verus!
