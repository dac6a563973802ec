//! The project record: what to compile, with what, and where to.
//!
//! A [`Project`] is immutable after loading.  It is assembled from a
//! plain-value mirror of the configuration file ([`ProjectConfig`]) that
//! the surrounding process fills in after parsing; every rule about
//! defaults, rejected shapes and derived paths is decided here.  The
//! artifact and side-output paths are derived from the entry file's stem
//! inside the output directory.  A root-relative transform
//! ([`Project::use_root_path`]) may be applied exactly once, right after
//! loading, before any resolution or staleness check runs.

use vstd::prelude::*;
use vstd::string::StringExecFns;

use crate::error::Error;
use crate::paths::join_spec;
use crate::paths::with_ext_spec;
use crate::paths::with_extension;
use crate::paths::with_prepend;

verus! {

/// A configuration field that should hold a string.
pub enum ConfigField {
    /// The key is not in the configuration: the default applies.
    Absent,
    /// The key holds this string.
    Text(String),
    /// The key holds something that is not a string.
    Wrong,
}

/// The configuration's list of include paths.
pub enum ConfigIncludes {
    /// No include list: only the entry file is a dependency.
    Absent,
    /// The declared entries, in order.
    Items(Vec<ConfigField>),
    /// The key holds something that is not an array.
    Wrong,
}

/// A plain-value mirror of the configuration file, one field per
/// recognised key, filled in by the caller after parsing.
pub struct ProjectConfig {
    /// The parsed configuration was an object at top level.
    pub is_object: bool,
    /// The `latex` key: the compiler command.
    pub latex: ConfigField,
    /// The `bin` key: the output directory.
    pub bin: ConfigField,
    /// The `entry` key: the root source file.
    pub entry: ConfigField,
    /// The `includes` key: further declared dependencies.
    pub includes: ConfigIncludes,
}

/// The string a field contributes, its default when absent.
pub open spec fn field_or(f: ConfigField, default: Seq<char>) -> Seq<char> {
    match f {
        ConfigField::Text(s) => s@,
        _ => default,
    }
}

/// The declared include items, empty when the key is absent.
pub open spec fn config_items(cfg: ProjectConfig) -> Seq<ConfigField> {
    match cfg.includes {
        ConfigIncludes::Items(v) => v@,
        _ => Seq::empty(),
    }
}

/// The message of the first configuration error, if any: the shape checks
/// run top-down, one key after the other, and the first failure wins.
pub open spec fn config_error(cfg: ProjectConfig) -> Option<Seq<char>> {
    if !cfg.is_object {
        Some("expecting object"@)
    } else if cfg.latex is Wrong {
        Some("\"latex\" should be a string"@)
    } else if cfg.bin is Wrong {
        Some("\"bin\" should be a string"@)
    } else if cfg.entry is Wrong {
        Some("\"entry\" should be a string"@)
    } else if cfg.includes is Wrong {
        Some("\"includes\" should be an array"@)
    } else if exists|k: int|
        #![trigger config_items(cfg)[k]]
        0 <= k < config_items(cfg).len() && !(config_items(cfg)[k] is Text) {
        Some("items in \"includes\" strings"@)
    } else {
        None
    }
}

/// A project loaded from its configuration: the compiler command, the
/// output directory, the derived artifact and side-output paths, the entry
/// file, and the declared dependency paths (includes, then the entry).
pub struct Project {
    /// The typesetting command to run.
    pub latex: String,
    /// The output directory.
    pub bin: String,
    /// The artifact: the entry's stem inside `bin`, with the `pdf`
    /// extension.
    pub pdf: String,
    /// The side-output file: the entry's stem inside `bin`, with the `aux`
    /// extension.
    pub aux: String,
    /// The root source file.
    pub entry: String,
    /// The declared dependency paths.
    pub files: Vec<String>,
}

impl Project {
    /// The derived paths follow from the output directory and the entry,
    /// and the declared files end with the entry itself.
    pub open spec fn wf(self) -> bool {
        &&& self.pdf@ == with_ext_spec(join_spec(self.bin@, self.entry@), "pdf"@)
        &&& self.aux@ == with_ext_spec(join_spec(self.bin@, self.entry@), "aux"@)
        &&& self.files@.len() >= 1
        &&& self.files@[self.files@.len() - 1]@ == self.entry@
    }

    /// The compiler command.
    pub fn latex(&self) -> (r: &String)
        ensures
            r@ == self.latex@,
    {
        &self.latex
    }

    /// The output directory.
    pub fn bin(&self) -> (r: &String)
        ensures
            r@ == self.bin@,
    {
        &self.bin
    }

    /// The artifact path.
    pub fn pdf(&self) -> (r: &String)
        ensures
            r@ == self.pdf@,
    {
        &self.pdf
    }

    /// The side-output path.
    pub fn aux(&self) -> (r: &String)
        ensures
            r@ == self.aux@,
    {
        &self.aux
    }

    /// The entry file path.
    pub fn entry(&self) -> (r: &String)
        ensures
            r@ == self.entry@,
    {
        &self.entry
    }

    /// The declared dependency paths: the includes in declaration order,
    /// then the entry.
    pub fn files(&self) -> (r: &Vec<String>)
        ensures
            r@ == self.files@,
    {
        &self.files
    }

    /// The default project: `pdflatex` compiling `index.tex` into `bin`.
    pub fn new() -> (r: Project)
        ensures
            r.latex@ == "pdflatex"@,
            r.bin@ == "bin"@,
            r.entry@ == "index.tex"@,
            r.files@.len() == 1,
            r.files@[0]@ == "index.tex"@,
            r.wf(),
    {
        let entry = String::from_str("index.tex");
        let bin = String::from_str("bin");
        let pdf = with_extension(&with_prepend(&entry, &bin), "pdf");
        let aux = with_extension(&with_prepend(&entry, &bin), "aux");
        let mut files: Vec<String> = Vec::new();
        files.push(String::from_str("index.tex"));
        Project { latex: String::from_str("pdflatex"), bin, pdf, aux, entry, files }
    }

    /// Assemble a project from the configuration mirror.
    ///
    /// Each recognised key must hold the right shape; the first wrong one
    /// is reported as [`Error::WrongConfigFormat`] with its message, and
    /// nothing is assembled.  Absent keys fall back to the defaults of
    /// [`Project::new`].  On success the declared files are the includes
    /// in declaration order followed by the entry, and the artifact and
    /// side-output paths are derived from the entry's stem inside the
    /// output directory.
    pub fn from_config(cfg: &ProjectConfig) -> (r: Result<Project, Error>)
        ensures
            match r {
                Ok(p) => {
                    &&& config_error(*cfg) is None
                    &&& p.latex@ == field_or(cfg.latex, "pdflatex"@)
                    &&& p.bin@ == field_or(cfg.bin, "bin"@)
                    &&& p.entry@ == field_or(cfg.entry, "index.tex"@)
                    &&& p.wf()
                    &&& p.files@.len() == config_items(*cfg).len() + 1
                    &&& forall|k: int|
                        #![trigger p.files@[k]]
                        0 <= k < config_items(*cfg).len() ==> p.files@[k]@ == field_or(
                            config_items(*cfg)[k],
                            Seq::empty(),
                        )
                },
                Err(Error::WrongConfigFormat(m)) => config_error(*cfg) == Some(m@),
                _ => false,
            },
    {
        if !cfg.is_object {
            return Err(Error::WrongConfigFormat(String::from_str("expecting object")));
        }
        let latex = match &cfg.latex {
            ConfigField::Absent => String::from_str("pdflatex"),
            ConfigField::Text(s) => s.clone(),
            ConfigField::Wrong => {
                return Err(
                    Error::WrongConfigFormat(String::from_str("\"latex\" should be a string")),
                );
            },
        };
        let bin = match &cfg.bin {
            ConfigField::Absent => String::from_str("bin"),
            ConfigField::Text(s) => s.clone(),
            ConfigField::Wrong => {
                return Err(
                    Error::WrongConfigFormat(String::from_str("\"bin\" should be a string")),
                );
            },
        };
        let entry = match &cfg.entry {
            ConfigField::Absent => String::from_str("index.tex"),
            ConfigField::Text(s) => s.clone(),
            ConfigField::Wrong => {
                return Err(
                    Error::WrongConfigFormat(String::from_str("\"entry\" should be a string")),
                );
            },
        };
        let joined = with_prepend(&entry, &bin);
        let pdf = with_extension(&joined, "pdf");
        let aux = with_extension(&joined, "aux");
        let mut files: Vec<String> = Vec::new();
        match &cfg.includes {
            ConfigIncludes::Absent => {},
            ConfigIncludes::Wrong => {
                return Err(
                    Error::WrongConfigFormat(String::from_str("\"includes\" should be an array")),
                );
            },
            ConfigIncludes::Items(items) => {
                let mut k: usize = 0;
                while k < items.len()
                    invariant
                        cfg.is_object,
                        !(cfg.latex is Wrong),
                        !(cfg.bin is Wrong),
                        !(cfg.entry is Wrong),
                        cfg.includes is Items,
                        config_items(*cfg) == items@,
                        k <= items@.len(),
                        files@.len() == k,
                        forall|j: int|
                            #![trigger items@[j]]
                            0 <= j < k ==> items@[j] is Text,
                        forall|j: int|
                            #![trigger files@[j]]
                            0 <= j < k ==> files@[j]@ == field_or(items@[j], Seq::empty()),
                    decreases items@.len() - k,
                {
                    match &items[k] {
                        ConfigField::Text(s) => {
                            files.push(s.clone());
                        },
                        _ => {
                            proof {
                                assert(config_items(*cfg) == items@);
                                assert(!(config_items(*cfg)[k as int] is Text));
                            }
                            return Err(
                                Error::WrongConfigFormat(
                                    String::from_str("items in \"includes\" strings"),
                                ),
                            );
                        },
                    }
                    k += 1;
                }
                proof {
                    assert(config_items(*cfg) == items@);
                    assert forall|j: int|
                        0 <= j < config_items(*cfg).len() implies config_items(*cfg)[j]
                        is Text by {
                        assert(items@[j] is Text);
                    }
                }
            },
        }
        files.push(entry.clone());
        Ok(Project { latex, bin, pdf, aux, entry, files })
    }

    /// Re-anchor every path under `root_path`: applied once, right after
    /// loading, so that a configuration read from elsewhere refers to its
    /// own directory rather than the working directory.  Absolute paths
    /// are kept as they are.
    pub fn use_root_path(&mut self, root_path: &String)
        ensures
            final(self).latex@ == old(self).latex@,
            final(self).bin@ == join_spec(root_path@, old(self).bin@),
            final(self).entry@ == join_spec(root_path@, old(self).entry@),
            final(self).pdf@ == join_spec(root_path@, old(self).pdf@),
            final(self).aux@ == join_spec(root_path@, old(self).aux@),
            final(self).files@.len() == old(self).files@.len(),
            forall|k: int|
                #![trigger final(self).files@[k]]
                0 <= k < old(self).files@.len() ==> final(self).files@[k]@ == join_spec(
                    root_path@,
                    old(self).files@[k]@,
                ),
    {
        self.bin = with_prepend(&self.bin, root_path);
        self.entry = with_prepend(&self.entry, root_path);
        let mut files: Vec<String> = Vec::new();
        let mut k: usize = 0;
        while k < self.files.len()
            invariant
                k <= self.files@.len(),
                files@.len() == k,
                self.files@ == old(self).files@,
                forall|j: int|
                    #![trigger files@[j]]
                    0 <= j < k ==> files@[j]@ == join_spec(root_path@, old(self).files@[j]@),
            decreases self.files@.len() - k,
        {
            files.push(with_prepend(&self.files[k], root_path));
            k += 1;
        }
        self.files = files;
        self.pdf = with_prepend(&self.pdf, root_path);
        self.aux = with_prepend(&self.aux, root_path);
    }
}

} // verus!
