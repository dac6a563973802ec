//! Makefile emission: the project's build rule as data, and its text.
//!
//! A [`Makefile`] holds targets; each target holds a command and its
//! dependencies, regular or order-only.  [`Project::to_make`] builds the
//! two conventional targets — the artifact, depending on every declared
//! file and (order-only) on the output directory, and the output directory
//! itself — and [`Makefile::render`] lays the whole file out as text for
//! the caller to write wherever it wants.

use vstd::prelude::*;
use vstd::string::StringExecFns;

use crate::error::Error;
use crate::project::Project;

verus! {

/// One dependency of a make target.
pub enum MakeDependency {
    /// An ordinary prerequisite.
    Regular(String),
    /// An order-only prerequisite, rendered after `| `.
    OrderOnly(String),
}

/// One make target: its name, the command that builds it, and its
/// prerequisites.
pub struct MakeTarget {
    /// The target name.
    pub target: String,
    /// The recipe line.
    pub command: String,
    /// The prerequisites, in order.
    pub dependencies: Vec<MakeDependency>,
}

/// A makefile: a list of targets.
pub struct Makefile {
    /// The targets, in order.
    pub targets: Vec<MakeTarget>,
}

/// How one dependency reads.
pub open spec fn dep_text(d: MakeDependency) -> Seq<char> {
    match d {
        MakeDependency::Regular(s) => s@,
        MakeDependency::OrderOnly(s) => seq!['|', ' '] + s@,
    }
}

/// How a dependency list reads: the entries separated by single spaces.
pub open spec fn deps_text(deps: Seq<MakeDependency>) -> Seq<char>
    decreases deps.len(),
{
    if deps.len() == 0 {
        Seq::empty()
    } else if deps.len() == 1 {
        dep_text(deps[0])
    } else {
        deps_text(deps.drop_last()) + seq![' '] + dep_text(deps.last())
    }
}

/// How one target reads: its name, the dependency list, then the recipe
/// on a tab-indented line.
pub open spec fn target_text(t: MakeTarget) -> Seq<char> {
    t.target@ + seq![':', ' '] + deps_text(t.dependencies@) + seq!['\n', '\t'] + t.command@
        + seq!['\n']
}

/// How a whole makefile reads: its targets, one after the other.
pub open spec fn makefile_text(targets: Seq<MakeTarget>) -> Seq<char>
    decreases targets.len(),
{
    if targets.len() == 0 {
        Seq::empty()
    } else {
        makefile_text(targets.drop_last()) + target_text(targets.last())
    }
}

impl Makefile {
    /// An empty makefile.
    pub fn new() -> (r: Makefile)
        ensures
            r.targets@.len() == 0,
    {
        Makefile { targets: Vec::new() }
    }

    /// The makefile as text, exactly as [`makefile_text`] lays it out.
    pub fn render(&self) -> (r: String)
        ensures
            r@ == makefile_text(self.targets@),
    {
        let mut out = String::new();
        let mut i: usize = 0;
        proof {
            assert(self.targets@.take(0) =~= Seq::<MakeTarget>::empty());
        }
        while i < self.targets.len()
            invariant
                i <= self.targets@.len(),
                out@ == makefile_text(self.targets@.take(i as int)),
            decreases self.targets@.len() - i,
        {
            let t = &self.targets[i];
            out.append(t.target.as_str());
            out.append(": ");
            proof {
                reveal_strlit(": ");
                assert(": "@ =~= seq![':', ' ']);
            }
            let mut j: usize = 0;
            let ghost deps = t.dependencies@;
            let ghost line_start = out@;
            proof {
                assert(deps.take(0) =~= Seq::<MakeDependency>::empty());
            }
            while j < t.dependencies.len()
                invariant
                    j <= deps.len(),
                    t.dependencies@ == deps,
                    out@ == line_start + deps_text(deps.take(j as int)),
                decreases deps.len() - j,
            {
                if j > 0 {
                    out.append(" ");
                    proof {
                        reveal_strlit(" ");
                        assert(" "@ =~= seq![' ']);
                    }
                }
                match &t.dependencies[j] {
                    MakeDependency::Regular(s) => {
                        out.append(s.as_str());
                    },
                    MakeDependency::OrderOnly(s) => {
                        out.append("| ");
                        out.append(s.as_str());
                        proof {
                            reveal_strlit("| ");
                            assert("| "@ =~= seq!['|', ' ']);
                        }
                    },
                }
                proof {
                    assert(deps.take(j + 1).drop_last() =~= deps.take(j as int));
                    assert(deps.take(j + 1).last() == deps[j as int]);
                    assert(out@ =~= line_start + deps_text(deps.take(j + 1)));
                }
                j += 1;
            }
            out.append("\n\t");
            out.append(t.command.as_str());
            out.append("\n");
            proof {
                reveal_strlit("\n\t");
                reveal_strlit("\n");
                assert("\n\t"@ =~= seq!['\n', '\t']);
                assert("\n"@ =~= seq!['\n']);
                assert(deps.take(deps.len() as int) =~= deps);
                assert(self.targets@.take(i + 1).drop_last() =~= self.targets@.take(i as int));
                assert(self.targets@.take(i + 1).last() == self.targets@[i as int]);
                assert(out@ =~= makefile_text(self.targets@.take(i + 1)));
            }
            i += 1;
        }
        proof {
            assert(self.targets@.take(self.targets@.len() as int) =~= self.targets@);
        }
        out
    }
}

impl Project {
    /// The project's makefile: the artifact built from every declared
    /// file, order-only on the output directory, and the output directory
    /// made when absent.
    pub fn to_make(&self) -> (r: Result<Makefile, Error>)
        ensures
            ({
                match r {
                    Ok(m) => {
                        &&& m.targets@.len() == 2
                        &&& m.targets@[0].target@ == self.pdf@
                        &&& m.targets@[0].command@ == self.latex@ + " -output-directory="@
                            + self.bin@ + " "@ + self.entry@
                        &&& m.targets@[0].dependencies@.len() == self.files@.len() + 1
                        &&& forall|k: int|
                            #![trigger m.targets@[0].dependencies@[k]]
                            0 <= k < self.files@.len() ==> dep_text(m.targets@[0].dependencies@[k])
                                == self.files@[k]@
                        &&& m.targets@[0].dependencies@[self.files@.len() as int]
                            is OrderOnly
                        &&& dep_text(m.targets@[0].dependencies@[self.files@.len() as int])
                            == seq!['|', ' '] + self.bin@
                        &&& m.targets@[1].target@ == self.bin@
                        &&& m.targets@[1].command@ == "mkdir "@ + self.bin@
                        &&& m.targets@[1].dependencies@.len() == 0
                    },
                    Err(_) => false,
                }
            }),
    {
        let mut dependencies: Vec<MakeDependency> = Vec::new();
        let files = self.files();
        let mut k: usize = 0;
        while k < files.len()
            invariant
                files@ == self.files@,
                k <= files@.len(),
                dependencies@.len() == k,
                forall|j: int|
                    #![trigger dependencies@[j]]
                    0 <= j < k ==> dependencies@[j] is Regular && dep_text(dependencies@[j])
                        == self.files@[j]@,
            decreases files@.len() - k,
        {
            dependencies.push(MakeDependency::Regular(files[k].clone()));
            k += 1;
        }
        dependencies.push(MakeDependency::OrderOnly(self.bin().clone()));

        let mut command = self.latex().clone();
        command.append(" -output-directory=");
        command.append(self.bin().as_str());
        command.append(" ");
        command.append(self.entry().as_str());

        let mut mkdir_command = String::from_str("mkdir ");
        mkdir_command.append(self.bin().as_str());
        proof {
            reveal_strlit("mkdir ");
        }

        let mut makefile = Makefile::new();
        makefile.targets.push(
            MakeTarget { target: self.pdf().clone(), command, dependencies },
        );
        makefile.targets.push(
            MakeTarget { target: self.bin().clone(), command: mkdir_command, dependencies: Vec::new() },
        );
        Ok(makefile)
    }
}

} // verus!
