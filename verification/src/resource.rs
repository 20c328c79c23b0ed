//! Path-keyed shared resources. The engine caches every loaded resource by
//! the path it was requested under; a second request for the same path gets
//! the already-cached entry instead of a second copy.

use vstd::prelude::*;
use crate::texture::Texture;

verus! {

/// What a resource holds.
pub enum ResourceKind {
    Base,
    Texture(Texture),
}

impl ResourceKind {
    pub open spec fn is_texture(self) -> bool {
        self is Texture
    }
}

/// A cache entry: a payload and the path it was loaded from.
pub struct Resource {
    kind: ResourceKind,
    path: String,
}

impl Resource {
    pub closed spec fn spec_kind(self) -> ResourceKind {
        self.kind
    }

    pub closed spec fn spec_path(self) -> Seq<char> {
        self.path@
    }

    pub fn new(path: &str, kind: ResourceKind) -> (r: Resource)
        ensures
            r.spec_kind() == kind,
            r.spec_path() == path@,
    {
        Resource { kind, path: path.to_owned() }
    }

    pub fn borrow_kind(&self) -> (r: &ResourceKind)
        ensures
            *r == self.spec_kind(),
    {
        &self.kind
    }

    pub fn borrow_kind_mut(&mut self) -> (r: &mut ResourceKind)
        ensures
            *r == old(self).spec_kind(),
            final(self).spec_kind() == *final(r),
            final(self).spec_path() == old(self).spec_path(),
    {
        &mut self.kind
    }

    /// Whether this resource was loaded from the given path.
    pub fn path_matches(&self, path: &str) -> (r: bool)
        ensures
            r == (self.spec_path() == path@),
    {
        let owned: String = path.to_owned();
        self.path == owned
    }
}

} // verus!
