//! The decoded configuration: projects, modules and code files.
//!
//! Names and language tags are byte strings; the decoding front end turns
//! its textual form into these values before generation starts.

use vstd::prelude::*;
use crate::lang::{ext_for_name, extension_for, DOT};
use crate::text::{copy_bytes, find_byte, has_byte, push_all};

verus! {

/// The file name a code file materializes under: kept verbatim when it
/// carries an extension separator, else the language extension is appended.
pub open spec fn filename_spec(name: Seq<u8>, lang: Seq<u8>) -> Seq<u8> {
    if has_byte(name, DOT) {
        name
    } else {
        name + seq![DOT] + ext_for_name(lang)
    }
}

/// One declared code file.
#[derive(Debug, Clone)]
pub struct CodeFile {
    pub name: Vec<u8>,
    pub vis: Option<Vec<u8>>,
}

/// One directory level of the declared module tree.
#[derive(Debug)]
pub struct Module {
    pub name: Vec<u8>,
    pub vis: Option<Vec<u8>>,
    pub tree: Vec<Module>,
    pub file: Vec<CodeFile>,
}

/// One declared project.
#[derive(Debug)]
pub struct Project {
    pub name: Vec<u8>,
    pub root: bool,
    pub lang: Vec<u8>,
    pub file: Vec<CodeFile>,
    pub tree: Vec<Module>,
}

/// The configuration root: the declared projects in order.
#[derive(Debug)]
pub struct MoliConfig {
    pub projects: Vec<Project>,
}

impl CodeFile {
    /// Get file name
    pub fn name(&self) -> (r: &Vec<u8>)
        ensures
            r@ == self.name@,
    {
        &self.name
    }

    /// Get file name with extension based on language
    pub fn filename_with_extension(&self, language: &Vec<u8>) -> (r: Vec<u8>)
        ensures
            r@ == filename_spec(self.name@, language@),
    {
        match find_byte(&self.name, DOT) {
            Some(_) => copy_bytes(&self.name),
            None => {
                let mut r = copy_bytes(&self.name);
                r.push(DOT);
                push_all(&mut r, &extension_for(language));
                proof {
                    assert(r@ =~= filename_spec(self.name@, language@));
                }
                r
            },
        }
    }

    /// Get pub visibility setting
    pub fn pub_setting(&self) -> (r: Option<&Vec<u8>>)
        ensures
            match (r, &self.vis) {
                (Some(v), Some(w)) => v@ == w@,
                (None, None) => true,
                _ => false,
            },
    {
        match &self.vis {
            Some(v) => Some(v),
            None => None,
        }
    }
}

impl Module {
    /// Get module name
    pub fn name(&self) -> (r: &Vec<u8>)
        ensures
            r@ == self.name@,
    {
        &self.name
    }

    /// Get sub-modules (subtree)
    pub fn subtree(&self) -> (r: &Vec<Module>)
        ensures
            r@ == self.tree@,
    {
        &self.tree
    }

    /// Get code files in this module
    pub fn files(&self) -> (r: &Vec<CodeFile>)
        ensures
            r@ == self.file@,
    {
        &self.file
    }

    /// Check if this module has sub-modules
    pub fn has_subtree(&self) -> (r: bool)
        ensures
            r <==> self.tree@.len() > 0,
    {
        self.tree.len() > 0
    }

    /// Check if this module has code files
    pub fn has_files(&self) -> (r: bool)
        ensures
            r <==> self.file@.len() > 0,
    {
        self.file.len() > 0
    }

    /// Get pub visibility setting for the module
    pub fn pub_setting(&self) -> (r: Option<&Vec<u8>>)
        ensures
            match (r, &self.vis) {
                (Some(v), Some(w)) => v@ == w@,
                (None, None) => true,
                _ => false,
            },
    {
        match &self.vis {
            Some(v) => Some(v),
            None => None,
        }
    }
}

impl Project {
    /// Get project name
    pub fn name(&self) -> (r: &Vec<u8>)
        ensures
            r@ == self.name@,
    {
        &self.name
    }

    /// Check if this is a root project
    pub fn is_root(&self) -> (r: bool)
        ensures
            r == self.root,
    {
        self.root
    }

    /// Get project language
    pub fn language(&self) -> (r: &Vec<u8>)
        ensures
            r@ == self.lang@,
    {
        &self.lang
    }

    /// Get top-level modules
    pub fn spec_tree(&self) -> (r: &Vec<Module>)
        ensures
            r@ == self.tree@,
    {
        &self.tree
    }

    /// Get all code files at project level
    pub fn files(&self) -> (r: &Vec<CodeFile>)
        ensures
            r@ == self.file@,
    {
        &self.file
    }
}

/// The non-root projects of a sequence, in declaration order.
pub open spec fn non_root_seq(s: Seq<Project>) -> Seq<Project>
    decreases s.len(),
{
    if s.len() == 0 {
        Seq::empty()
    } else {
        non_root_seq(s.drop_last()) + (if s.last().root {
            Seq::<Project>::empty()
        } else {
            seq![s.last()]
        })
    }
}

impl MoliConfig {
    /// Get all projects
    pub fn projects(&self) -> (r: &Vec<Project>)
        ensures
            r@ == self.projects@,
    {
        &self.projects
    }

    /// Get root project (single project mode)
    pub fn root_project(&self) -> (r: Option<&Project>)
        ensures
            match r {
                Some(p) => p.root && (exists|i: int|
                    0 <= i < self.projects@.len() && self.projects@[i] == *p),
                None => forall|i: int| 0 <= i < self.projects@.len() ==> !self.projects@[i].root,
            },
    {
        let mut i: usize = 0;
        while i < self.projects.len()
            invariant
                0 <= i <= self.projects@.len(),
                forall|j: int| 0 <= j < i ==> !self.projects@[j].root,
            decreases self.projects@.len() - i,
        {
            if self.projects[i].root {
                return Some(&self.projects[i]);
            }
            i = i + 1;
        }
        None
    }

    /// Get non-root projects (multi-project mode)
    pub fn sub_projects(&self) -> (r: Vec<&Project>)
        ensures
            r@.map_values(|p: &Project| *p) == non_root_seq(self.projects@),
    {
        let mut r: Vec<&Project> = Vec::new();
        let mut i: usize = 0;
        while i < self.projects.len()
            invariant
                0 <= i <= self.projects@.len(),
                r@.map_values(|p: &Project| *p) =~= non_root_seq(self.projects@.take(i as int)),
            decreases self.projects@.len() - i,
        {
            let ghost prev = r@;
            if !self.projects[i].root {
                r.push(&self.projects[i]);
            }
            proof {
                assert(self.projects@.take(i as int + 1).drop_last() =~= self.projects@.take(
                    i as int,
                ));
                assert(self.projects@.take(i as int + 1).last() == self.projects@[i as int]);
                if !self.projects@[i as int].root {
                    assert(r@ == prev.push(r@[prev.len() as int]));
                    assert(r@.map_values(|p: &Project| *p) =~= prev.map_values(|p: &Project| *p)
                        + seq![self.projects@[i as int]]);
                }
                assert(r@.map_values(|p: &Project| *p) =~= non_root_seq(self.projects@.take(
                    i as int + 1,
                )));
            }
            i = i + 1;
        }
        proof {
            assert(self.projects@.take(self.projects@.len() as int) =~= self.projects@);
        }
        r
    }

    /// Check if this is a single project configuration
    pub fn is_single_project(&self) -> (r: bool)
        ensures
            r <==> exists|i: int| 0 <= i < self.projects@.len() && self.projects@[i].root,
    {
        self.root_project().is_some()
    }
}

} // verus!
