//! Registration of source files and lookup by identity.

use vstd::prelude::*;

verus! {

/// An opaque identity for a registered source file, assigned in
/// registration order starting at zero, never reused or reassigned.
#[derive(PartialEq, Eq, Structural, Hash, Copy, Clone, Debug)]
pub struct SourceId(u32);

impl SourceId {
    /// The position of this id in registration order.
    pub closed spec fn spec_index(self) -> int {
        self.0 as int
    }
}

/// A registered source file: its identity, its name, and its full text.
/// Created only by [`SourceTree::register`]; immutable thereafter.
#[derive(Clone, Debug)]
pub struct SourceFile {
    id: SourceId,
    name: String,
    text: String,
}

impl SourceFile {
    /// The identity this file was registered under.
    pub closed spec fn spec_id(self) -> SourceId {
        self.id
    }

    /// The file's name.
    pub closed spec fn spec_name(self) -> Seq<char> {
        self.name@
    }

    /// The file's text, as the sequence of its characters.
    pub closed spec fn spec_text(self) -> Seq<char> {
        self.text@
    }

    /// The path-like name the file was registered under.
    pub fn name(&self) -> (n: &str)
        ensures
            n@ == self.spec_name(),
    {
        self.name.as_str()
    }

    /// The identity this file was registered under.
    pub fn id(&self) -> (i: SourceId)
        ensures
            i == self.spec_id(),
    {
        self.id
    }

    /// The file's full text.
    pub fn text(&self) -> (t: &str)
        ensures
            t@ == self.spec_text(),
    {
        self.text.as_str()
    }
}

/// A source file that has not been registered yet: what the loading
/// layer hands over, before an identity exists for it.
pub struct UnregisteredSourceFile {
    pub name: String,
    pub text: String,
}

/// An append-only registry of source files, keyed by [`SourceId`] in
/// registration order.
pub struct SourceTree {
    files: Vec<SourceFile>,
}

impl SourceTree {
    /// The registered files, in registration order.
    pub closed spec fn spec_files(self) -> Seq<SourceFile> {
        self.files@
    }

    /// Every file sits at the index its id names, so every id ever
    /// handed out by `register` keeps resolving for the tree's lifetime.
    pub open spec fn wf(self) -> bool {
        forall|i: int|
            0 <= i < self.spec_files().len() ==> (#[trigger] self.spec_files()[i]).spec_id().spec_index() == i
    }

    /// Builds an empty registry.
    pub fn new() -> (t: SourceTree)
        ensures
            t.spec_files().len() == 0,
            t.wf(),
    {
        SourceTree { files: Vec::new() }
    }

    /// Looks a file up by its identity. Total: an id that was never
    /// handed out yields `None` rather than a crash.
    pub fn find(&self, id: SourceId) -> (r: Option<&SourceFile>)
        ensures
            match r {
                Some(f) => {
                    &&& 0 <= id.spec_index() < self.spec_files().len()
                    &&& *f == self.spec_files()[id.spec_index()]
                },
                None => !(0 <= id.spec_index() < self.spec_files().len()),
            },
    {
        let idx = id.0 as usize;
        if idx < self.files.len() {
            Some(&self.files[idx])
        } else {
            None
        }
    }

    /// Registers a file: assigns the next sequential id, stores the
    /// file under it, and returns the id.
    pub fn register(&mut self, file: UnregisteredSourceFile) -> (id: SourceId)
        requires
            old(self).spec_files().len() < u32::MAX,
        ensures
            id.spec_index() == old(self).spec_files().len(),
            final(self).spec_files().len() == old(self).spec_files().len() + 1,
            final(self).spec_files() =~= old(self).spec_files().push(
                final(self).spec_files().last(),
            ),
            final(self).spec_files().last().spec_id() == id,
            final(self).spec_files().last().spec_name() == file.name@,
            final(self).spec_files().last().spec_text() == file.text@,
            old(self).wf() ==> final(self).wf(),
    {
        let id = SourceId(self.files.len() as u32);
        self.files.push(
            SourceFile { id, name: file.name, text: file.text },
        );
        id
    }
}

} // verus!
