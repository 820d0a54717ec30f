//! Component library: reusable SVG fragments (art + collider markers)
//! that levels compose via placements, and backdrops: per-level scenery
//! themes referenced by levels as a whole.

use crate::error::{ServiceError, ServiceResult};
use crate::ids::Uuid;
use crate::repository::character::{first_where, lemma_first_where};
use crate::repository::table::{upsert, upsert_row, Row, UuidGen};
use vstd::prelude::*;

verus! {

/// One library component.
pub struct Component {
    pub id: Uuid,
    /// Authored identity: the component's filename.
    pub slug: String,
    pub width_px: u32,
    pub height_px: u32,
    pub content_hash: String,
    pub data: Vec<u8>,
}

/// The import argument for one component.
pub struct ComponentImportV1 {
    pub slug: String,
    pub width_px: u32,
    pub height_px: u32,
    pub content_hash: String,
    pub data: Vec<u8>,
}

/// One backdrop layer's art: a standalone SVG document plus its natural
/// size and content hash.
#[derive(Debug)]
pub struct BackdropLayerV1 {
    pub width_px: u32,
    pub height_px: u32,
    pub content_hash: String,
    pub data: Vec<u8>,
}

/// The import argument for one backdrop.
pub struct BackdropImportV1 {
    pub slug: String,
    pub sky: BackdropLayerV1,
    pub far: BackdropLayerV1,
    pub mid: BackdropLayerV1,
}

/// One backdrop: three parallax layers under an authored slug.
pub struct Backdrop {
    pub id: Uuid,
    pub slug: String,
    pub sky: BackdropLayerV1,
    pub far: BackdropLayerV1,
    pub mid: BackdropLayerV1,
}

impl Row for Component {
    open spec fn key(&self) -> Uuid {
        self.id
    }

    fn row_key(&self) -> (k: Uuid) {
        self.id
    }
}

impl Row for Backdrop {
    open spec fn key(&self) -> Uuid {
        self.id
    }

    fn row_key(&self) -> (k: Uuid) {
        self.id
    }
}

/// The component row with the given slug.
pub open spec fn component_slug_is(slug: Seq<char>) -> spec_fn(Component) -> bool {
    |c: Component| c.slug@ == slug
}

/// The backdrop row with the given slug.
pub open spec fn backdrop_slug_is(slug: Seq<char>) -> spec_fn(Backdrop) -> bool {
    |b: Backdrop| b.slug@ == slug
}

pub(crate) fn copy_bytes(v: &Vec<u8>) -> (c: Vec<u8>)
    ensures
        c@ == v@,
{
    let mut c: Vec<u8> = Vec::new();
    let mut i: usize = 0;
    while i < v.len()
        invariant
            i <= v.len(),
            c@ == v@.take(i as int),
        decreases v.len() - i,
    {
        c.push(v[i]);
        assert(v@.take(i + 1) == v@.take(i as int).push(v@[i as int]));
        i = i + 1;
    }
    assert(v@.take(v@.len() as int) == v@);
    c
}

/// What importing `import` does to the component table `before`, giving
/// `after`, and to the next free row UUID, given the shared component
/// check's verdict `validity`: a refused import changes nothing; otherwise
/// the row of the same slug is overwritten under its UUID, or a row is
/// added under a fresh one.
pub open spec fn component_imported(
    before: Seq<Component>,
    after: Seq<Component>,
    next_before: u128,
    next_after: u128,
    import: ComponentImportV1,
    validity: ServiceResult<()>,
    res: ServiceResult<()>,
) -> bool {
    if validity is Err {
        res == validity && after == before && next_after == next_before
    } else {
        match first_where(before, component_slug_is(import.slug@)) {
            Some(i) => res is Ok && after == upsert(
                before,
                Component {
                    id: before[i].id,
                    slug: import.slug,
                    width_px: import.width_px,
                    height_px: import.height_px,
                    content_hash: import.content_hash,
                    data: import.data,
                },
            ) && next_after == next_before,
            None => if next_before < u128::MAX {
                res is Ok && after == upsert(
                    before,
                    Component {
                        id: Uuid { value: next_before },
                        slug: import.slug,
                        width_px: import.width_px,
                        height_px: import.height_px,
                        content_hash: import.content_hash,
                        data: import.data,
                    },
                ) && next_after == next_before + 1
            } else {
                res is Err && res->Err_0 is Internal && after == before && next_after == next_before
            },
        }
    }
}

/// What importing `import` does to the backdrop table `before`, giving
/// `after`, and to the next free row UUID: the row of the same slug is
/// overwritten under its UUID, or a row is added under a fresh one.
pub open spec fn backdrop_imported(
    before: Seq<Backdrop>,
    after: Seq<Backdrop>,
    next_before: u128,
    next_after: u128,
    import: BackdropImportV1,
    res: ServiceResult<()>,
) -> bool {
    match first_where(before, backdrop_slug_is(import.slug@)) {
        Some(i) => res is Ok && after == upsert(
            before,
            Backdrop { id: before[i].id, slug: import.slug, sky: import.sky, far: import.far, mid: import.mid },
        ) && next_after == next_before,
        None => if next_before < u128::MAX {
            res is Ok && after == upsert(
                before,
                Backdrop {
                    id: Uuid { value: next_before },
                    slug: import.slug,
                    sky: import.sky,
                    far: import.far,
                    mid: import.mid,
                },
            ) && next_after == next_before + 1
        } else {
            res is Err && res->Err_0 is Internal && after == before && next_after == next_before
        },
    }
}

/// A copy of a component row.
pub fn copy_component(c: &Component) -> (d: Component)
    ensures
        d.id == c.id,
        d.slug@ == c.slug@,
        d.width_px == c.width_px,
        d.height_px == c.height_px,
        d.content_hash@ == c.content_hash@,
        d.data@ == c.data@,
{
    Component {
        id: c.id,
        slug: c.slug.clone(),
        width_px: c.width_px,
        height_px: c.height_px,
        content_hash: c.content_hash.clone(),
        data: copy_bytes(&c.data),
    }
}

/// The component library table.
pub struct ComponentServicesImpl {
    pub components: Vec<Component>,
}

impl ComponentServicesImpl {
    /// An empty library.
    pub fn new() -> (s: ComponentServicesImpl)
        ensures
            s.components@.len() == 0,
    {
        ComponentServicesImpl { components: Vec::new() }
    }

    /// The position of the component with the given slug.
    pub fn slug_position(&self, slug: &String) -> (p: Option<usize>)
        ensures
            match p {
                Some(i) => first_where(self.components@, component_slug_is(slug@)) == Some(i as int)
                    && i < self.components@.len(),
                None => first_where(self.components@, component_slug_is(slug@)) is None,
            },
    {
        let ghost pr = component_slug_is(slug@);
        let mut i: usize = 0;
        while i < self.components.len()
            invariant
                i <= self.components@.len(),
                pr == component_slug_is(slug@),
                forall|j: int| 0 <= j < i ==> !pr(#[trigger] self.components@[j]),
            decreases self.components.len() - i,
        {
            if self.components[i].slug == *slug {
                proof {
                    lemma_first_where(self.components@, pr);
                    if let Some(k) = first_where(self.components@, pr) {
                        if k < i {
                            assert(!pr(self.components@[k]));
                        }
                        assert(pr(self.components@[i as int]));
                    }
                }
                return Some(i);
            }
            i = i + 1;
        }
        proof {
            lemma_first_where(self.components@, pr);
        }
        None
    }

    /// Atomically overwrite one component by slug. The slug is the authored
    /// identity (filename); the UUID is generated on first import and kept
    /// stable across overwrites so placements never dangle. `validity` is
    /// the shared component check's verdict on the imported facts.
    pub fn import_component(
        &mut self,
        ids: &mut UuidGen,
        import: ComponentImportV1,
        validity: ServiceResult<()>,
    ) -> (res: ServiceResult<()>)
        ensures
            component_imported(
                old(self).components@,
                final(self).components@,
                old(ids).next,
                final(ids).next,
                import,
                validity,
                res,
            ),
    {
        if validity.is_err() {
            return validity;
        }
        let id = match self.slug_position(&import.slug) {
            Some(i) => self.components[i].id,
            None => ids.generate_uuid()?,
        };
        upsert_row(
            &mut self.components,
            Component {
                id,
                slug: import.slug,
                width_px: import.width_px,
                height_px: import.height_px,
                content_hash: import.content_hash,
                data: import.data,
            },
        );
        Ok(())
    }

    /// The component with the given slug, if any.
    pub fn find_by_slug(&self, slug: &String) -> (found: Option<Component>)
        ensures
            match first_where(self.components@, component_slug_is(slug@)) {
                Some(i) => found is Some && found->0.id == self.components@[i].id
                    && found->0.slug@ == self.components@[i].slug@ && found->0.width_px
                    == self.components@[i].width_px && found->0.height_px
                    == self.components@[i].height_px && found->0.content_hash@
                    == self.components@[i].content_hash@ && found->0.data@ == self.components@[i].data@,
                None => found is None,
            },
    {
        match self.slug_position(slug) {
            Some(i) => Some(copy_component(&self.components[i])),
            None => None,
        }
    }
}

/// The backdrop table.
pub struct BackdropServicesImpl {
    pub backdrops: Vec<Backdrop>,
}

impl BackdropServicesImpl {
    /// An empty table.
    pub fn new() -> (s: BackdropServicesImpl)
        ensures
            s.backdrops@.len() == 0,
    {
        BackdropServicesImpl { backdrops: Vec::new() }
    }

    /// The position of the backdrop with the given slug.
    pub fn slug_position(&self, slug: &String) -> (p: Option<usize>)
        ensures
            match p {
                Some(i) => first_where(self.backdrops@, backdrop_slug_is(slug@)) == Some(i as int)
                    && i < self.backdrops@.len(),
                None => first_where(self.backdrops@, backdrop_slug_is(slug@)) is None,
            },
    {
        let ghost pr = backdrop_slug_is(slug@);
        let mut i: usize = 0;
        while i < self.backdrops.len()
            invariant
                i <= self.backdrops@.len(),
                pr == backdrop_slug_is(slug@),
                forall|j: int| 0 <= j < i ==> !pr(#[trigger] self.backdrops@[j]),
            decreases self.backdrops.len() - i,
        {
            if self.backdrops[i].slug == *slug {
                proof {
                    lemma_first_where(self.backdrops@, pr);
                    if let Some(k) = first_where(self.backdrops@, pr) {
                        if k < i {
                            assert(!pr(self.backdrops@[k]));
                        }
                        assert(pr(self.backdrops@[i as int]));
                    }
                }
                return Some(i);
            }
            i = i + 1;
        }
        proof {
            lemma_first_where(self.backdrops@, pr);
        }
        None
    }

    /// Atomically overwrite one backdrop by slug. The slug is the authored
    /// identity (filename prefix); the UUID is generated on first import and
    /// kept stable across overwrites so level references never dangle.
    pub fn import_backdrop(&mut self, ids: &mut UuidGen, import: BackdropImportV1) -> (res:
        ServiceResult<()>)
        ensures
            backdrop_imported(
                old(self).backdrops@,
                final(self).backdrops@,
                old(ids).next,
                final(ids).next,
                import,
                res,
            ),
    {
        let id = match self.slug_position(&import.slug) {
            Some(i) => self.backdrops[i].id,
            None => ids.generate_uuid()?,
        };
        upsert_row(
            &mut self.backdrops,
            Backdrop { id, slug: import.slug, sky: import.sky, far: import.far, mid: import.mid },
        );
        Ok(())
    }

    /// The UUID of the backdrop with the given slug, if any.
    pub fn find_by_slug(&self, slug: &String) -> (found: Option<Uuid>)
        ensures
            match first_where(self.backdrops@, backdrop_slug_is(slug@)) {
                Some(i) => found == Some(self.backdrops@[i].id),
                None => found is None,
            },
    {
        match self.slug_position(slug) {
            Some(i) => Some(self.backdrops[i].id),
            None => None,
        }
    }
}

} // verus!
