//! The build configuration: a source directory and an XML manifest path,
//! built once through a validating builder and immutable afterwards.

use vstd::prelude::*;
use vstd::string::StrSliceExecFns;
use vstd::string::StringExecFns;

verus! {

/// A validated resource-bundle configuration.  `src_dir` is the directory the
/// manifest's entries are relative to; `definition_file` is the path of the
/// XML manifest, whose file name must end in `.xml`.
#[derive(Debug)]
pub struct Resource {
    pub src_dir: String,
    pub definition_file: String,
}

/// A partially filled configuration; [`ResourceBuilder::build`] validates it
/// and produces the [`Resource`].
#[derive(Debug)]
pub struct ResourceBuilder {
    pub src_dir: Option<String>,
    pub definition_file: Option<String>,
}

/// The required manifest extension, `.xml`.
pub open spec fn xml_extension() -> Seq<char> {
    seq!['.', 'x', 'm', 'l']
}

/// Index at which the file name of a path starts: just past the last `/`,
/// or the start of the path when it has no `/`.
pub open spec fn basename_start(p: Seq<char>) -> int
    decreases p.len(),
{
    if p.len() == 0 {
        0
    } else if p[p.len() - 1] == '/' {
        p.len() as int
    } else {
        basename_start(p.drop_last())
    }
}

pub proof fn lemma_basename_start_range(p: Seq<char>)
    ensures
        0 <= basename_start(p) <= p.len(),
    decreases p.len(),
{
    if p.len() != 0 && p[p.len() - 1] != '/' {
        lemma_basename_start_range(p.drop_last());
    }
}

/// The file name of a path: everything after its last `/`.
pub open spec fn basename_of(p: Seq<char>) -> Seq<char> {
    p.subrange(basename_start(p), p.len() as int)
}

/// A path names a manifest when its file name ends in `.xml` and has a
/// non-empty stem in front of the extension.
pub open spec fn valid_definition_path(p: Seq<char>) -> bool {
    let base = basename_of(p);
    base.len() > 4 && base.subrange(base.len() - 4, base.len() as int) == xml_extension()
}

/// The stem of a manifest path: its file name with the `.xml` removed.
pub open spec fn definition_stem(p: Seq<char>) -> Seq<char>
    recommends
        valid_definition_path(p),
{
    p.subrange(basename_start(p), p.len() - 4)
}

/// Index at which the file name of `p` starts, as [`basename_start`] says.
pub fn find_basename_start(p: &str) -> (r: usize)
    ensures
        r as int == basename_start(p@),
        0 <= r <= p@.len(),
{
    proof {
        lemma_basename_start_range(p@);
    }
    let n = p.unicode_len();
    let mut k: usize = n;
    proof {
        assert(p@.subrange(0, n as int) =~= p@);
    }
    while k > 0
        invariant
            0 <= k <= n,
            n as int == p@.len(),
            basename_start(p@) == basename_start(p@.subrange(0, k as int)),
        decreases k,
    {
        proof {
            assert(p@.subrange(0, k as int).drop_last() =~= p@.subrange(0, k as int - 1));
        }
        if p.get_char(k - 1) == '/' {
            proof {
                assert(p@.subrange(0, k as int).last() == p@[k as int - 1]);
            }
            return k;
        }
        k -= 1;
    }
    proof {
        assert(p@.subrange(0, 0) =~= Seq::<char>::empty());
    }
    0
}

/// Whether a path names a manifest, as [`valid_definition_path`] says.
pub fn definition_path_ok(p: &str) -> (r: bool)
    ensures
        r == valid_definition_path(p@),
{
    let start = find_basename_start(p);
    let n = p.unicode_len();
    let base_len = n - start;
    if base_len <= 4 {
        proof {
            assert(basename_of(p@).len() == n - start);
        }
        return false;
    }
    let r = p.get_char(n - 4) == '.' && p.get_char(n - 3) == 'x' && p.get_char(n - 2) == 'm'
        && p.get_char(n - 1) == 'l';
    proof {
        let base = basename_of(p@);
        assert(base.len() == n - start);
        if r {
            assert(base.subrange(base.len() - 4, base.len() as int) =~= xml_extension());
        } else {
            assert(base.subrange(base.len() - 4, base.len() as int)[0] == p@[n as int - 4]);
            assert(base.subrange(base.len() - 4, base.len() as int)[1] == p@[n as int - 3]);
            assert(base.subrange(base.len() - 4, base.len() as int)[2] == p@[n as int - 2]);
            assert(base.subrange(base.len() - 4, base.len() as int)[3] == p@[n as int - 1]);
        }
    }
    r
}

impl Resource {
    /// An empty builder to fill in and validate.
    pub fn builder() -> (r: ResourceBuilder)
        ensures
            r.src_dir is None,
            r.definition_file is None,
    {
        ResourceBuilder { src_dir: None, definition_file: None }
    }

    /// The stem of the manifest's file name, which names every generated
    /// artifact.
    pub fn base_name(&self) -> (r: String)
        requires
            valid_definition_path(self.definition_file@),
        ensures
            r@ == definition_stem(self.definition_file@),
    {
        let p = self.definition_file.as_str();
        let start = find_basename_start(p);
        let n = p.unicode_len();
        proof {
            assert(basename_of(p@).len() == n - start);
        }
        let stem = p.substring_char(start, n - 4);
        String::from_str(stem)
    }
}

impl ResourceBuilder {
    /// Set the source directory the manifest's entries are relative to.
    pub fn src_dir(self, v: &str) -> (r: ResourceBuilder)
        ensures
            r.src_dir is Some && r.src_dir->0@ == v@,
            r.definition_file == self.definition_file,
    {
        ResourceBuilder { src_dir: Some(String::from_str(v)), definition_file: self.definition_file }
    }

    /// Set the path of the XML manifest.
    pub fn definition_file(self, v: &str) -> (r: ResourceBuilder)
        ensures
            r.definition_file is Some && r.definition_file->0@ == v@,
            r.src_dir == self.src_dir,
    {
        ResourceBuilder { src_dir: self.src_dir, definition_file: Some(String::from_str(v)) }
    }

    /// Validate the builder.  The filesystem fact it needs — whether the
    /// given source directory exists and is a directory — is probed by the
    /// caller and handed in as `src_dir_is_dir`; everything else is checked
    /// here.  Succeeds exactly when both paths are provided, the source
    /// directory is a directory, and the manifest path names a `.xml` file.
    pub fn validate(&self, src_dir_is_dir: bool) -> (r: Result<(), String>)
        ensures
            match r {
                Ok(_) => self.src_dir is Some && src_dir_is_dir && self.definition_file is Some
                    && valid_definition_path(self.definition_file->0@),
                Err(m) => {
                    if self.src_dir is None {
                        m@ == "src_dir not provided"@
                    } else if !src_dir_is_dir {
                        m@ == self.src_dir->0@ + " is not a directory"@
                    } else if self.definition_file is None {
                        m@ == "definition_file not provided"@
                    } else {
                        &&& !valid_definition_path(self.definition_file->0@)
                        &&& m@ == self.definition_file->0@ + " does not name a .xml file"@
                    }
                },
            },
    {
        match &self.src_dir {
            None => Err("src_dir not provided".to_owned()),
            Some(src) => {
                if !src_dir_is_dir {
                    let mut m = src.clone();
                    m.append(" is not a directory");
                    Err(m)
                } else {
                    match &self.definition_file {
                        None => Err("definition_file not provided".to_owned()),
                        Some(def) => {
                            if !definition_path_ok(def.as_str()) {
                                let mut m = def.clone();
                                m.append(" does not name a .xml file");
                                Err(m)
                            } else {
                                Ok(())
                            }
                        },
                    }
                }
            },
        }
    }

    /// Validate and produce the immutable configuration.  Succeeds exactly
    /// when [`ResourceBuilder::validate`] does, and then carries both paths
    /// over unchanged.
    pub fn build(&self, src_dir_is_dir: bool) -> (r: Result<Resource, String>)
        ensures
            match r {
                Ok(res) => {
                    &&& self.src_dir is Some && src_dir_is_dir && self.definition_file is Some
                    &&& res.src_dir@ == self.src_dir->0@
                    &&& res.definition_file@ == self.definition_file->0@
                    &&& valid_definition_path(res.definition_file@)
                },
                Err(m) => {
                    if self.src_dir is None {
                        m@ == "src_dir not provided"@
                    } else if !src_dir_is_dir {
                        m@ == self.src_dir->0@ + " is not a directory"@
                    } else if self.definition_file is None {
                        m@ == "definition_file not provided"@
                    } else {
                        &&& !valid_definition_path(self.definition_file->0@)
                        &&& m@ == self.definition_file->0@ + " does not name a .xml file"@
                    }
                },
            },
    {
        match self.validate(src_dir_is_dir) {
            Err(m) => Err(m),
            Ok(_) => {
                match (&self.src_dir, &self.definition_file) {
                    (Some(src), Some(def)) => Ok(
                        Resource { src_dir: src.clone(), definition_file: def.clone() },
                    ),
                    _ => {
                        proof {
                            assert(false);
                        }
                        Err(String::new())
                    },
                }
            },
        }
    }
}

} // verus!
