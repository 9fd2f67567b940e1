//! Named entities, visible declarations and the declarative region.
use crate::ast::{
    Designator, Ident, ObjectClass, ObjectDeclaration, Reference, SrcPos, Symbol, UnitId, WithPos, WithRef,
};
use crate::diagnostic::{error_diagnostic, Diagnostic, Message, Severity};
use crate::fnv_maps::{
    designator_map_entries, designator_map_get, designator_map_insert, designator_map_remove,
    lists_entries, position_map_insert, position_map_into_entries, symbol_map_get,
    symbol_map_insert,
};
use fnv::FnvHashMap;
use std::sync::Arc;
use vstd::prelude::*;

verus! {

/// What kind of thing a name denotes.
pub enum NamedEntityKind {
    AliasOf(Box<NamedEntity>),
    Other,
    Overloaded,
    /// A type, with an optional region of implicit declarations
    /// (for example the literals of an enumeration type).
    TypeDeclaration(Option<Arc<Region<'static>>>),
    IncompleteType,
    Constant,
    DeferredConstant,
    /// A protected type, with the region that its body extends.
    ProtectedType(Arc<Region<'static>>),
    Library(Symbol),
    Entity(UnitId, Arc<Region<'static>>),
    Configuration(UnitId, Arc<Region<'static>>),
    Package(UnitId, Arc<Region<'static>>),
    UninstPackage(UnitId, Arc<Region<'static>>),
    PackageInstance(UnitId, Arc<Region<'static>>),
    Context(UnitId, Arc<Region<'static>>),
    LocalPackageInstance(Symbol, Arc<Region<'static>>),
}

/// The kind that an object declaration introduces: a constant with an
/// initial value is a constant, one without is a deferred constant, and any
/// other object is `Other`.
pub open spec fn object_declaration_kind(decl: ObjectDeclaration) -> NamedEntityKind {
    if decl.class is Constant {
        if decl.expression is None {
            NamedEntityKind::DeferredConstant
        } else {
            NamedEntityKind::Constant
        }
    } else {
        NamedEntityKind::Other
    }
}

impl NamedEntityKind {
    /// The kind of entity that an object declaration declares.
    pub fn from_object_declaration(decl: &ObjectDeclaration) -> (kind: NamedEntityKind)
        ensures
            kind == object_declaration_kind(*decl),
    {
        match decl.class {
            ObjectClass::Constant => {
                if decl.expression.is_none() {
                    NamedEntityKind::DeferredConstant
                } else {
                    NamedEntityKind::Constant
                }
            },
            _ => NamedEntityKind::Other,
        }
    }

    fn is_deferred_constant(&self) -> (b: bool)
        ensures
            b == (*self is DeferredConstant),
    {
        if let NamedEntityKind::DeferredConstant = self {
            true
        } else {
            false
        }
    }

    fn is_non_deferred_constant(&self) -> (b: bool)
        ensures
            b == (*self is Constant),
    {
        if let NamedEntityKind::Constant = self {
            true
        } else {
            false
        }
    }

    fn is_type_declaration(&self) -> (b: bool)
        ensures
            b == (*self is TypeDeclaration),
    {
        if let NamedEntityKind::TypeDeclaration(..) = self {
            true
        } else {
            false
        }
    }

    fn is_protected_type(&self) -> (b: bool)
        ensures
            b == (*self is ProtectedType),
    {
        if let NamedEntityKind::ProtectedType(..) = self {
            true
        } else {
            false
        }
    }

    fn is_alias(&self) -> (b: bool)
        ensures
            b == (*self is AliasOf),
    {
        if let NamedEntityKind::AliasOf(..) = self {
            true
        } else {
            false
        }
    }
}

/// A declared entity: its kind and where it was declared. Builtin and
/// implicit declarations have no position.
pub struct NamedEntity {
    decl_pos: Option<SrcPos>,
    kind: NamedEntityKind,
}

/// The position that an optional reference points at, copied.
pub open spec fn copied(pos: Option<&SrcPos>) -> Option<SrcPos> {
    match pos {
        Some(p) => Some(*p),
        None => None,
    }
}

/// The entity that an alias stands for, through any number of aliases; an
/// entity that is no alias stands for itself.
pub open spec fn actual(ent: NamedEntity) -> NamedEntity
    decreases ent,
{
    match ent.spec_kind() {
        NamedEntityKind::AliasOf(inner) => actual(*inner),
        _ => ent,
    }
}

/// Whether declaring `ent` where `prev` is already declared under the same
/// name is a duplicate declaration: it is, unless both are overloaded, or
/// `ent` is the full declaration of the deferred constant `prev`, or `ent`
/// is the full declaration of the incomplete type `prev`.
pub open spec fn duplicates(ent: NamedEntity, prev: NamedEntity) -> bool {
    &&& !(ent.spec_kind() is Overloaded && prev.spec_kind() is Overloaded)
    &&& !(prev.spec_kind() is DeferredConstant && ent.spec_kind() is Constant)
    &&& !(prev.spec_kind() is IncompleteType && ent.spec_kind() is TypeDeclaration)
}

impl NamedEntity {
    pub closed spec fn spec_decl_pos(&self) -> Option<SrcPos> {
        self.decl_pos
    }

    pub closed spec fn spec_kind(&self) -> NamedEntityKind {
        self.kind
    }

    /// The entity of `kind` declared at `decl_pos`.
    pub closed spec fn make(kind: NamedEntityKind, decl_pos: Option<SrcPos>) -> NamedEntity {
        NamedEntity { decl_pos, kind }
    }

    pub proof fn lemma_make(kind: NamedEntityKind, decl_pos: Option<SrcPos>)
        ensures
            NamedEntity::make(kind, decl_pos).spec_kind() == kind,
            NamedEntity::make(kind, decl_pos).spec_decl_pos() == decl_pos,
    {
    }

    /// The entity of `kind` declared at `decl_pos`.
    pub fn new(kind: NamedEntityKind, decl_pos: Option<&SrcPos>) -> (ent: NamedEntity)
        ensures
            ent == NamedEntity::make(kind, copied(decl_pos)),
    {
        NamedEntity { kind, decl_pos: copy_pos(decl_pos) }
    }

    /// Where the entity was declared, if anywhere.
    pub fn decl_pos(&self) -> (pos: Option<&SrcPos>)
        ensures
            copied(pos) == self.spec_decl_pos(),
    {
        self.decl_pos.as_ref()
    }

    /// What the entity is.
    pub fn kind(&self) -> (kind: &NamedEntityKind)
        ensures
            *kind == self.spec_kind(),
    {
        &self.kind
    }

    /// Reports an error at the declaration, where it has a position.
    fn error(&self, diagnostics: &mut Vec<Diagnostic>, message: Message)
        ensures
            final(diagnostics)@ == old(diagnostics)@ + error_at(*self, message),
    {
        if let Some(ref pos) = self.decl_pos {
            diagnostics.push(Diagnostic::error(pos, message));
        }
    }

    fn is_overloaded(&self) -> (b: bool)
        ensures
            b == (self.spec_kind() is Overloaded),
    {
        if let NamedEntityKind::Overloaded = self.kind {
            true
        } else {
            false
        }
    }

    /// Whether this declaration duplicates the earlier declaration `prev`.
    fn is_duplicate_of(&self, prev: &Self) -> (b: bool)
        ensures
            b == duplicates(*self, *prev),
    {
        if self.is_overloaded() && prev.is_overloaded() {
            return false;
        }
        match prev.kind {
            // Everything is forbidden except completing a deferred constant
            // or an incomplete type
            NamedEntityKind::DeferredConstant if self.kind.is_non_deferred_constant() => {},
            NamedEntityKind::IncompleteType if self.kind.is_type_declaration() => {},
            _ => {
                return true;
            },
        }
        false
    }

    /// The actual entity, with aliases stripped.
    fn as_actual(&self) -> (ent: &NamedEntity)
        ensures
            *ent == actual(*self),
        decreases self,
    {
        match self.kind() {
            NamedEntityKind::AliasOf(ent) => ent.as_actual(),
            _ => self,
        }
    }
}

/// The error diagnostic with `message` at the declaration of `ent`, or none
/// where it has no position.
pub open spec fn error_at(ent: NamedEntity, message: Message) -> Seq<Diagnostic> {
    match ent.spec_decl_pos() {
        Some(pos) => seq![error_diagnostic(pos, message)],
        None => Seq::empty(),
    }
}

impl Clone for NamedEntityKind {
    fn clone(&self) -> (c: Self)
        ensures
            c == *self,
    {
        copy_kind(self)
    }
}

impl Clone for NamedEntity {
    fn clone(&self) -> (c: Self)
        ensures
            c == *self,
    {
        copy_entity(self)
    }
}

fn copy_pos(pos: Option<&SrcPos>) -> (c: Option<SrcPos>)
    ensures
        c == copied(pos),
{
    match pos {
        Some(p) => Some(*p),
        None => None,
    }
}

fn copy_kind(kind: &NamedEntityKind) -> (c: NamedEntityKind)
    ensures
        c == *kind,
    decreases kind,
{
    match kind {
        NamedEntityKind::AliasOf(ent) => NamedEntityKind::AliasOf(Box::new(copy_entity(ent))),
        NamedEntityKind::Other => NamedEntityKind::Other,
        NamedEntityKind::Overloaded => NamedEntityKind::Overloaded,
        NamedEntityKind::TypeDeclaration(implicit) => NamedEntityKind::TypeDeclaration(
            match implicit {
                Some(r) => Some(r.clone()),
                None => None,
            },
        ),
        NamedEntityKind::IncompleteType => NamedEntityKind::IncompleteType,
        NamedEntityKind::Constant => NamedEntityKind::Constant,
        NamedEntityKind::DeferredConstant => NamedEntityKind::DeferredConstant,
        NamedEntityKind::ProtectedType(r) => NamedEntityKind::ProtectedType(r.clone()),
        NamedEntityKind::Library(s) => NamedEntityKind::Library(*s),
        NamedEntityKind::Entity(u, r) => NamedEntityKind::Entity(*u, r.clone()),
        NamedEntityKind::Configuration(u, r) => NamedEntityKind::Configuration(*u, r.clone()),
        NamedEntityKind::Package(u, r) => NamedEntityKind::Package(*u, r.clone()),
        NamedEntityKind::UninstPackage(u, r) => NamedEntityKind::UninstPackage(*u, r.clone()),
        NamedEntityKind::PackageInstance(u, r) => NamedEntityKind::PackageInstance(*u, r.clone()),
        NamedEntityKind::Context(u, r) => NamedEntityKind::Context(*u, r.clone()),
        NamedEntityKind::LocalPackageInstance(s, r) => NamedEntityKind::LocalPackageInstance(
            *s,
            r.clone(),
        ),
    }
}

fn copy_entity(ent: &NamedEntity) -> (c: NamedEntity)
    ensures
        c == *ent,
    decreases ent,
{
    NamedEntity { decl_pos: ent.decl_pos, kind: copy_kind(&ent.kind) }
}


/// A declaration's designator and its entities, in the order they were added.
pub type DeclView = (Designator, Seq<NamedEntity>);

/// The entities declared (or made visible) under one designator. It always
/// holds at least one entity; several when they are overloaded.
pub struct VisibleDeclaration {
    designator: Designator,
    named_entities: Vec<NamedEntity>,
}

impl View for VisibleDeclaration {
    type V = DeclView;

    closed spec fn view(&self) -> DeclView {
        (self.designator, self.named_entities@)
    }
}

/// The views of the declarations in a map.
pub open spec fn decl_views(m: Map<Designator, VisibleDeclaration>) -> Map<Designator, DeclView> {
    m.map_values(|v: VisibleDeclaration| v@)
}

/// The view of an optional declaration.
pub open spec fn opt_view(o: Option<VisibleDeclaration>) -> Option<DeclView> {
    match o {
        Some(v) => Some(v@),
        None => None,
    }
}

/// The first entity of a declaration.
pub open spec fn first_of(v: DeclView) -> NamedEntity {
    v.1[0]
}

impl VisibleDeclaration {
    #[verifier::type_invariant]
    spec fn has_entities(&self) -> bool {
        self.named_entities@.len() > 0
    }

    /// The declaration of one entity under `designator`.
    pub fn new(designator: Designator, named_entity: NamedEntity) -> (decl: VisibleDeclaration)
        ensures
            decl@ == (designator, seq![named_entity]),
    {
        let mut named_entities = Vec::new();
        named_entities.push(named_entity);
        VisibleDeclaration { designator, named_entities }
    }

    /// The entity, where the declaration holds exactly one that is not
    /// overloaded; `None` otherwise.
    pub fn into_non_overloaded(self) -> (ent: Option<NamedEntity>)
        requires
            self@.1.len() == 1 || forall|i: int|
                0 <= i < self@.1.len() ==> (#[trigger] self@.1[i]).spec_kind() is Overloaded,
        ensures
            ent == (if self@.1.len() == 1 && !(self@.1[0].spec_kind() is Overloaded) {
                Some(self@.1[0])
            } else {
                None
            }),
    {
        if self.named_entities.len() == 1 {
            let ent = copy_entity(&self.named_entities[0]);
            if !ent.is_overloaded() {
                Some(ent)
            } else {
                None
            }
        } else {
            None
        }
    }

    /// The name of the declaration.
    pub fn designator(&self) -> (d: &Designator)
        ensures
            *d == self@.0,
    {
        &self.designator
    }

    /// The entities, in the order in which they were added.
    pub fn named_entities(&self) -> (ents: &[NamedEntity])
        ensures
            ents@ == self@.1,
    {
        self.named_entities.as_slice()
    }

    fn first(&self) -> (ent: &NamedEntity)
        ensures
            *ent == first_of(self@),
    {
        proof {
            use_type_invariant(self);
        }
        &self.named_entities[0]
    }

    /// The kind of the first entity.
    pub fn first_kind(&self) -> (kind: &NamedEntityKind)
        ensures
            *kind == first_of(self@).spec_kind(),
    {
        &self.first().kind
    }

    /// The declaration with `ent` added after its entities.
    fn push(self, ent: NamedEntity) -> (decl: VisibleDeclaration)
        ensures
            decl@ == (self@.0, self@.1.push(ent)),
    {
        let VisibleDeclaration { designator, mut named_entities } = self;
        named_entities.push(ent);
        VisibleDeclaration { designator, named_entities }
    }

    /// Makes every entity of this declaration potentially visible in `region`.
    pub fn make_potentially_visible_in(&self, region: &mut Region<'_>)
        ensures
            final(region).spec_visibility().spec_regions() == old(region).spec_visibility().spec_regions()
                + implicit_regions_of_all(self@.1),
            final(region).spec_visibility().spec_visible() == add_all_visible(
                old(region).spec_visibility().spec_visible(),
                self@.0,
                self@.1,
            ),
            final(region).same_except_visibility(*old(region)),
            final(region).is_filed(),
    {
        proof {
            use_type_invariant(self);
        }
        let ghost old_region = *region;
        let mut i: usize = 0;
        while i < self.named_entities.len()
            invariant
                0 <= i <= self.named_entities@.len(),
                self.named_entities@.len() > 0,
                region.spec_visibility().spec_regions() == old_region.spec_visibility().spec_regions()
                    + implicit_regions_of_all(self@.1.take(i as int)),
                region.spec_visibility().spec_visible() == (if i == 0 {
                    old_region.spec_visibility().spec_visible()
                } else {
                    add_all_visible(old_region.spec_visibility().spec_visible(), self@.0, self@.1.take(i as int))
                }),
                region.same_except_visibility(old_region),
            decreases self.named_entities@.len() - i,
        {
            let ent = copy_entity(&self.named_entities[i]);
            region.make_potentially_visible(self.designator, ent);
            proof {
                lemma_add_all_visible_step(old_region.spec_visibility().spec_visible(), self@.0, self@.1, i as int);
                lemma_implicit_regions_of_all_step(self@.1, i as int);
            }
            i = i + 1;
        }
        proof {
            assert(self@.1.take(i as int) =~= self@.1);
        }
        region.show_filed();
    }

    /// A copy with the same designator and entities.
    fn copy(&self) -> (c: VisibleDeclaration)
        ensures
            c@ == self@,
    {
        proof {
            use_type_invariant(self);
        }
        let mut named_entities: Vec<NamedEntity> = Vec::new();
        let mut i: usize = 0;
        while i < self.named_entities.len()
            invariant
                0 <= i <= self.named_entities@.len(),
                named_entities@ == self.named_entities@.take(i as int),
            decreases self.named_entities@.len() - i,
        {
            named_entities.push(copy_entity(&self.named_entities[i]));
            proof {
                assert(self.named_entities@.take(i + 1) =~= self.named_entities@.take(i as int).push(
                    self.named_entities@[i as int],
                ));
            }
            i = i + 1;
        }
        proof {
            assert(self.named_entities@.take(i as int) =~= self.named_entities@);
        }
        VisibleDeclaration { designator: self.designator, named_entities }
    }
}

/// Each declaration is filed under its own designator and has an entity.
pub open spec fn filed(decls: Map<Designator, DeclView>) -> bool {
    forall|k: Designator| #[trigger] decls.contains_key(k) ==> decls[k].0 == k && decls[k].1.len() > 0
}

/// Declarations filed by designator: each under its own designator, and
/// none without an entity.
pub struct DeclarationMap {
    map: FnvHashMap<Designator, VisibleDeclaration>,
}

impl View for DeclarationMap {
    type V = Map<Designator, DeclView>;

    closed spec fn view(&self) -> Map<Designator, DeclView> {
        Map::new(|k: Designator| self.map@.contains_key(k), |k: Designator| (k, self.map@[k]@.1))
    }
}

impl DeclarationMap {
    #[verifier::type_invariant]
    spec fn filed_by_designator(&self) -> bool {
        forall|k: Designator|
            #[trigger] self.map@.contains_key(k) ==> self.map@[k]@.0 == k && self.map@[k]@.1.len() > 0
    }

    /// The contents as declarations, which are those of the view.
    proof fn lemma_views(&self)
        requires
            self.filed_by_designator(),
        ensures
            self@ == decl_views(self.map@),
            filed(self@),
    {
        assert(self@ =~= decl_views(self.map@));
    }

    fn new() -> (m: DeclarationMap)
        ensures
            m@ == Map::<Designator, DeclView>::empty(),
    {
        let m = DeclarationMap { map: FnvHashMap::default() };
        proof {
            assert(m@ =~= Map::<Designator, DeclView>::empty());
        }
        m
    }

    /// The declaration filed under `d`, if any.
    fn get(&self, d: &Designator) -> (found: Option<&VisibleDeclaration>)
        ensures
            ref_view(found) == lookup_view(self@, *d),
    {
        proof {
            use_type_invariant(self);
            self.lemma_views();
        }
        designator_map_get(&self.map, d)
    }

    /// Takes out the declaration filed under `d`, if any.
    fn remove(self, d: &Designator) -> (r: (DeclarationMap, Option<VisibleDeclaration>))
        ensures
            r.0@ == self@.remove(*d),
            opt_view(r.1) == lookup_view(self@, *d),
    {
        proof {
            use_type_invariant(&self);
            self.lemma_views();
        }
        let DeclarationMap { mut map } = self;
        let removed = designator_map_remove(&mut map, d);
        let m = DeclarationMap { map };
        proof {
            assert(m@ =~= self@.remove(*d));
        }
        (m, removed)
    }

    /// Files `decl` under its designator, in place of what was there.
    fn insert(self, decl: VisibleDeclaration) -> (m: DeclarationMap)
        ensures
            m@ == self@.insert(decl@.0, decl@),
    {
        proof {
            use_type_invariant(&self);
            use_type_invariant(&decl);
        }
        let ghost filed = decl@;
        let DeclarationMap { mut map } = self;
        let designator = decl.designator;
        designator_map_insert(&mut map, designator, decl);
        let m = DeclarationMap { map };
        proof {
            assert(m@ =~= self@.insert(filed.0, filed));
        }
        m
    }

    /// Every declaration with its designator once, in the order in which the
    /// map is walked, which is left open.
    fn entries(&self) -> (entries: Vec<(&Designator, &VisibleDeclaration)>)
        ensures
            lists_entries(entries@.map_values(|e: (&Designator, &VisibleDeclaration)| (*e.0, e.1@)), self@),
    {
        proof {
            use_type_invariant(self);
            self.lemma_views();
        }
        let entries = designator_map_entries(&self.map);
        proof {
            lemma_lists_views(entries@, self.map@);
        }
        entries
    }
}

impl Clone for DeclarationMap {
    fn clone(&self) -> (c: Self)
        ensures
            c@ == self@,
    {
        proof {
            use_type_invariant(self);
        }
        let c = DeclarationMap { map: self.map.clone() };
        proof {
            assert(c@ =~= self@);
        }
        c
    }
}

/// The regions of implicit declarations that using `ent` makes potentially
/// visible: those of the type that it (through aliases) declares.
pub open spec fn implicit_regions(ent: NamedEntity) -> Seq<Arc<Region<'static>>> {
    match actual(ent).spec_kind() {
        NamedEntityKind::TypeDeclaration(Some(implicit)) => seq![implicit],
        _ => Seq::empty(),
    }
}

/// The implicit regions of each of `ents`, in order.
pub open spec fn implicit_regions_of_all(ents: Seq<NamedEntity>) -> Seq<Arc<Region<'static>>>
    decreases ents.len(),
{
    if ents.len() == 0 {
        Seq::empty()
    } else {
        implicit_regions_of_all(ents.drop_last()) + implicit_regions(ents.last())
    }
}

/// `visible` after `ent` is made visible under `designator`: it joins the
/// declaration already there, or starts a new one.
pub open spec fn add_visible(
    visible: Map<Designator, DeclView>,
    designator: Designator,
    ent: NamedEntity,
) -> Map<Designator, DeclView> {
    if visible.contains_key(designator) {
        visible.insert(designator, (visible[designator].0, visible[designator].1.push(ent)))
    } else {
        visible.insert(designator, (designator, seq![ent]))
    }
}

/// `visible` after the non-empty `ents` are made visible under `designator`,
/// in order.
pub open spec fn add_all_visible(
    visible: Map<Designator, DeclView>,
    designator: Designator,
    ents: Seq<NamedEntity>,
) -> Map<Designator, DeclView> {
    if visible.contains_key(designator) {
        visible.insert(designator, (visible[designator].0, visible[designator].1 + ents))
    } else {
        visible.insert(designator, (designator, ents))
    }
}

proof fn lemma_add_all_visible_step(
    visible: Map<Designator, DeclView>,
    designator: Designator,
    ents: Seq<NamedEntity>,
    i: int,
)
    requires
        0 <= i < ents.len(),
    ensures
        add_visible(
            if i == 0 { visible } else { add_all_visible(visible, designator, ents.take(i)) },
            designator,
            ents[i],
        ) == add_all_visible(visible, designator, ents.take(i + 1)),
{
    assert(ents.take(i + 1) =~= ents.take(i).push(ents[i]));
    if i == 0 {
        assert(ents.take(1) =~= seq![ents[0]]);
        assert(add_visible(visible, designator, ents[0]) =~= add_all_visible(visible, designator, ents.take(1)));
    } else {
        let m = add_all_visible(visible, designator, ents.take(i));
        assert(add_visible(m, designator, ents[i]) =~= add_all_visible(visible, designator, ents.take(i + 1)));
    }
}

proof fn lemma_implicit_regions_of_all_step(ents: Seq<NamedEntity>, i: int)
    requires
        0 <= i < ents.len(),
    ensures
        implicit_regions_of_all(ents.take(i + 1)) == implicit_regions_of_all(ents.take(i)) + implicit_regions(ents[i]),
{
    assert(ents.take(i + 1).drop_last() =~= ents.take(i));
}


/// `ents` are the values of `m`, each once, in some order.
pub open spec fn lists_values<K>(ents: Seq<NamedEntity>, m: Map<K, NamedEntity>) -> bool {
    exists|entries: Seq<(K, NamedEntity)>|
        lists_entries(entries, m) && ents == entries.map_values(|e: (K, NamedEntity)| e.1)
}

/// `m` after each of `ents`, in order, is recorded under its declaration
/// position; a later entity replaces an earlier one with the same position.
pub open spec fn record_all(m: Map<Option<SrcPos>, NamedEntity>, ents: Seq<NamedEntity>) -> Map<
    Option<SrcPos>,
    NamedEntity,
>
    decreases ents.len(),
{
    if ents.len() == 0 {
        m
    } else {
        record_all(m, ents.drop_last()).insert(ents.last().spec_decl_pos(), ents.last())
    }
}

/// Whether the potentially visible entities `ents` (at least two of them)
/// may stand together: they may when all are overloaded or one is an alias.
pub open spec fn unambiguous(ents: Seq<NamedEntity>) -> bool {
    ||| ents.len() == 1
    ||| forall|i: int| 0 <= i < ents.len() ==> (#[trigger] ents[i]).spec_kind() is Overloaded
    ||| exists|i: int| 0 <= i < ents.len() && (#[trigger] ents[i]).spec_kind() is AliasOf
}

/// Marks a lookup whose potentially visible declarations hide each other.
struct Hidden {}

/// The entities that use clauses make potentially visible under one
/// designator, at most one per declaration position.
pub struct Visible<'a> {
    named_entities: FnvHashMap<Option<SrcPos>, &'a NamedEntity>,
}

impl<'a> View for Visible<'a> {
    type V = Map<Option<SrcPos>, NamedEntity>;

    closed spec fn view(&self) -> Map<Option<SrcPos>, NamedEntity> {
        self.named_entities@.map_values(|e: &'a NamedEntity| *e)
    }
}

impl<'a> Default for Visible<'a> {
    fn default() -> (visible: Visible<'a>)
        ensures
            visible@ == Map::<Option<SrcPos>, NamedEntity>::empty(),
    {
        let visible = Visible { named_entities: FnvHashMap::default() };
        proof {
            assert(visible@ =~= Map::<Option<SrcPos>, NamedEntity>::empty());
        }
        visible
    }
}

impl<'a> Visible<'a> {
    fn push(&mut self, ent: &'a NamedEntity)
        ensures
            final(self)@ == old(self)@.insert(ent.spec_decl_pos(), *ent),
    {
        // The declaration position stands in for the identity of the entity.
        position_map_insert(&mut self.named_entities, ent.decl_pos, ent);
        proof {
            assert(final(self)@ =~= old(self)@.insert(ent.spec_decl_pos(), *ent));
        }
    }

    fn into_unambiguous(self, designator: &Designator) -> (r: Result<Option<VisibleDeclaration>, Hidden>)
        ensures
            exists|ents: Seq<NamedEntity>|
                #![trigger lists_values(ents, self@)]
                lists_values(ents, self@) && if ents.len() == 0 {
                    r matches Ok(None)
                } else if unambiguous(ents) {
                    r matches Ok(Some(v)) && v@ == (*designator, ents)
                } else {
                    r is Err
                },
    {
        let ghost m = self@;
        let entries = position_map_into_entries(self.named_entities);
        let ghost deref_entries = entries@.map_values(|e: (Option<SrcPos>, &'a NamedEntity)| (e.0, *e.1));
        proof {
            lemma_lists_deref(entries@, self.named_entities@);
        }
        let mut named_entities: Vec<NamedEntity> = Vec::new();
        let mut i: usize = 0;
        while i < entries.len()
            invariant
                0 <= i <= entries@.len(),
                named_entities@ == deref_entries.take(i as int).map_values(|e: (Option<SrcPos>, NamedEntity)| e.1),
                deref_entries == entries@.map_values(|e: (Option<SrcPos>, &'a NamedEntity)| (e.0, *e.1)),
            decreases entries@.len() - i,
        {
            named_entities.push(copy_entity(entries[i].1));
            proof {
                assert(deref_entries.take(i + 1).map_values(|e: (Option<SrcPos>, NamedEntity)| e.1) =~=
                    deref_entries.take(i as int).map_values(|e: (Option<SrcPos>, NamedEntity)| e.1).push(*entries@[i as int].1));
            }
            i = i + 1;
        }
        let ghost ents = named_entities@;
        proof {
            assert(deref_entries.take(i as int) =~= deref_entries);
            assert(lists_values(ents, m));
        }
        if named_entities.len() == 0 {
            return Ok(None);
        }
        let visible = VisibleDeclaration { designator: *designator, named_entities };
        if visible.named_entities.len() == 1 {
            Ok(Some(visible))
        } else if all_overloaded(&visible.named_entities) {
            Ok(Some(visible))
        } else if any_alias(&visible.named_entities) {
            // Until entities have unique ids, aliases disable the hiding check
            Ok(Some(visible))
        } else {
            // Duplicate visible items hide each other
            Err(Hidden {})
        }
    }
}

proof fn lemma_lists_deref<'a>(
    entries: Seq<(Option<SrcPos>, &'a NamedEntity)>,
    raw: Map<Option<SrcPos>, &'a NamedEntity>,
)
    requires
        lists_entries(entries, raw),
    ensures
        lists_entries(
            entries.map_values(|e: (Option<SrcPos>, &'a NamedEntity)| (e.0, *e.1)),
            raw.map_values(|e: &'a NamedEntity| *e),
        ),
{
    let d = entries.map_values(|e: (Option<SrcPos>, &'a NamedEntity)| (e.0, *e.1));
    let m = raw.map_values(|e: &'a NamedEntity| *e);
    assert forall|i: int| #![trigger d[i]] 0 <= i < d.len() implies m.contains_key(d[i].0) && d[i].1 == m[d[i].0] by {
        assert(entries[i] == entries[i]);
    }
    assert forall|i: int, j: int| #![trigger d[i], d[j]] 0 <= i < j < d.len() implies d[i].0 != d[j].0 by {
        assert(entries[i] == entries[i] && entries[j] == entries[j]);
    }
    assert forall|k: Option<SrcPos>| #[trigger] m.contains_key(k) implies exists|i: int|
        0 <= i < d.len() && d[i].0 == k by {
        assert(raw.contains_key(k));
        let i = choose|i: int| 0 <= i < entries.len() && entries[i].0 == k;
        assert(d[i].0 == k);
    }
}

fn all_overloaded(ents: &Vec<NamedEntity>) -> (b: bool)
    ensures
        b == forall|i: int| 0 <= i < ents@.len() ==> (#[trigger] ents@[i]).spec_kind() is Overloaded,
{
    let mut i: usize = 0;
    while i < ents.len()
        invariant
            0 <= i <= ents@.len(),
            forall|j: int| 0 <= j < i ==> (#[trigger] ents@[j]).spec_kind() is Overloaded,
        decreases ents@.len() - i,
    {
        if !ents[i].is_overloaded() {
            return false;
        }
        i = i + 1;
    }
    true
}

fn any_alias(ents: &Vec<NamedEntity>) -> (b: bool)
    ensures
        b == exists|i: int| 0 <= i < ents@.len() && (#[trigger] ents@[i]).spec_kind() is AliasOf,
{
    let mut i: usize = 0;
    while i < ents.len()
        invariant
            0 <= i <= ents@.len(),
            forall|j: int| 0 <= j < i ==> !((#[trigger] ents@[j]).spec_kind() is AliasOf),
        decreases ents@.len() - i,
    {
        if ents[i].kind().is_alias() {
            return true;
        }
        i = i + 1;
    }
    false
}


/// The entities declared under `d` in `decls`, or none.
pub open spec fn entities_under(decls: Map<Designator, DeclView>, d: Designator) -> Seq<NamedEntity> {
    if decls.contains_key(d) {
        decls[d].1
    } else {
        Seq::empty()
    }
}

/// The declaration under `d` in `decls`, if any.
pub open spec fn lookup_view(decls: Map<Designator, DeclView>, d: Designator) -> Option<DeclView> {
    if decls.contains_key(d) {
        Some(decls[d])
    } else {
        None
    }
}

/// What the regions made wholly visible declare under `d`, region by region.
pub open spec fn regions_candidates(regions: Seq<Arc<Region<'static>>>, d: Designator) -> Seq<NamedEntity>
    decreases regions.len(),
{
    if regions.len() == 0 {
        Seq::empty()
    } else {
        regions_candidates(regions.drop_last(), d) + entities_under(regions.last().spec_decls(), d)
    }
}

/// What a visibility makes potentially visible under `d`: first what its
/// wholly visible regions declare, then what was made visible by name.
pub open spec fn visibility_candidates(vis: Visibility, d: Designator) -> Seq<NamedEntity> {
    regions_candidates(vis.spec_regions(), d) + entities_under(vis.spec_visible(), d)
}

/// `a` with the entities of `b` added: under a designator of both, those of
/// `b` follow those of `a`.
pub open spec fn merge_visible(a: Map<Designator, DeclView>, b: Map<Designator, DeclView>) -> Map<
    Designator,
    DeclView,
> {
    Map::new(
        |k: Designator| a.contains_key(k) || b.contains_key(k),
        |k: Designator|
            if !b.contains_key(k) {
                a[k]
            } else if a.contains_key(k) {
                (a[k].0, a[k].1 + b[k].1)
            } else {
                (k, b[k].1)
            },
    )
}

/// The regions whose declarations are all potentially visible, and the
/// declarations made potentially visible one by one.
pub struct Visibility {
    all_in_regions: Vec<Arc<Region<'static>>>,
    visible: DeclarationMap,
}

impl Default for Visibility {
    fn default() -> (vis: Visibility)
        ensures
            vis.spec_regions() == Seq::<Arc<Region<'static>>>::empty(),
            vis.spec_visible() == Map::<Designator, DeclView>::empty(),
            filed(vis.spec_visible()),
    {
        let vis = Visibility { all_in_regions: Vec::new(), visible: DeclarationMap::new() };
        proof {
            assert(vis.spec_visible() =~= Map::<Designator, DeclView>::empty());
        }
        vis
    }
}

impl Visibility {
    /// Every visibility files each declaration under its own designator,
    /// with at least one entity.
    fn show_filed(&self)
        ensures
            filed(self.spec_visible()),
    {
        proof {
            use_type_invariant(&self.visible);
            self.visible.lemma_views();
        }
    }

    pub closed spec fn spec_regions(&self) -> Seq<Arc<Region<'static>>> {
        self.all_in_regions@
    }

    pub closed spec fn spec_visible(&self) -> Map<Designator, DeclView> {
        self.visible@
    }

    /// Makes every declaration of `region` potentially visible.
    pub fn make_all_potentially_visible(&mut self, region: &Arc<Region<'static>>)
        ensures
            final(self).spec_regions() == old(self).spec_regions().push(*region),
            final(self).spec_visible() == old(self).spec_visible(),
            filed(final(self).spec_visible()),
    {
        self.all_in_regions.push(region.clone());
        self.show_filed();
    }

    /// Adds what another visibility makes potentially visible (used for
    /// context clauses).
    pub fn add_context_visibility(&mut self, visibility: &Visibility)
        ensures
            final(self).spec_regions() == old(self).spec_regions() + visibility.spec_regions(),
            final(self).spec_visible() == merge_visible(old(self).spec_visible(), visibility.spec_visible()),
            filed(final(self).spec_visible()),
    {
        let ghost old_regions = self.spec_regions();
        let mut i: usize = 0;
        while i < visibility.all_in_regions.len()
            invariant
                0 <= i <= visibility.spec_regions().len(),
                self.spec_regions() == old_regions + visibility.spec_regions().take(i as int),
                self.spec_visible() == old(self).spec_visible(),
            decreases visibility.spec_regions().len() - i,
        {
            self.all_in_regions.push(visibility.all_in_regions[i].clone());
            proof {
                assert(visibility.spec_regions().take(i + 1) =~= visibility.spec_regions().take(i as int).push(
                    visibility.spec_regions()[i as int],
                ));
            }
            i = i + 1;
        }
        proof {
            assert(visibility.spec_regions().take(i as int) =~= visibility.spec_regions());
        }
        let ghost old_visible = self.spec_visible();
        let ghost other = visibility.spec_visible();
        let entries = visibility.visible.entries();
        let ghost listed = entries@.map_values(|e: (&Designator, &VisibleDeclaration)| (*e.0, e.1@));
        let mut j: usize = 0;
        while j < entries.len()
            invariant
                0 <= j <= entries@.len(),
                listed == entries@.map_values(|e: (&Designator, &VisibleDeclaration)| (*e.0, e.1@)),
                lists_entries(listed, other),
                other == visibility.spec_visible(),
                self.spec_regions() == old_regions + visibility.spec_regions(),
                self.spec_visible() == merge_visible(old_visible, other.restrict(keys_before(listed, j as int))),
            decreases entries@.len() - j,
        {
            let (designator, visible) = entries[j];
            proof {
                use_type_invariant(visible);
            }
            let ghost before = self.spec_visible();
            let mut k: usize = 0;
            while k < visible.named_entities.len()
                invariant
                    0 <= k <= visible@.1.len(),
                    visible@.1.len() > 0,
                    self.spec_regions() == old_regions + visibility.spec_regions(),
                    self.spec_visible() == (if k == 0 {
                        before
                    } else {
                        add_all_visible(before, *designator, visible@.1.take(k as int))
                    }),
                decreases visible@.1.len() - k,
            {
                // Implicit declarations were made visible when used in the context
                self.make_potentially_visible_no_implicit(*designator, copy_entity(&visible.named_entities[k]));
                proof {
                    lemma_add_all_visible_step(before, *designator, visible@.1, k as int);
                }
                k = k + 1;
            }
            proof {
                assert(visible@.1.take(k as int) =~= visible@.1);
                assert(listed[j as int] == (*designator, visible@));
                lemma_merge_step(old_visible, other, listed, j as int);
            }
            j = j + 1;
        }
        proof {
            lemma_keys_before_all(listed, other);
            assert(other.restrict(keys_before(listed, j as int)) =~= other);
        }
        self.show_filed();
    }

    /// Makes the implicit declarations of a used type potentially visible,
    /// for example the literals of an enumeration type.
    pub fn make_implicit_declarations_visible(&mut self, ent: &NamedEntity)
        ensures
            final(self).spec_regions() == old(self).spec_regions() + implicit_regions(*ent),
            final(self).spec_visible() == old(self).spec_visible(),
            filed(final(self).spec_visible()),
    {
        match ent.as_actual().kind() {
            NamedEntityKind::TypeDeclaration(implicit) => {
                if let Some(implicit) = implicit {
                    self.make_all_potentially_visible(implicit);
                } else {
                    proof {
                        assert(old(self).spec_regions() + implicit_regions(*ent) =~= old(self).spec_regions());
                    }
                }
            },
            _ => {
                proof {
                    assert(old(self).spec_regions() + implicit_regions(*ent) =~= old(self).spec_regions());
                }
            },
        }
        self.show_filed();
    }

    /// Makes `ent` potentially visible as `designator`, together with the
    /// implicit declarations that come with it.
    pub fn make_potentially_visible(&mut self, designator: Designator, ent: NamedEntity)
        ensures
            final(self).spec_regions() == old(self).spec_regions() + implicit_regions(ent),
            final(self).spec_visible() == add_visible(old(self).spec_visible(), designator, ent),
            filed(final(self).spec_visible()),
    {
        self.make_implicit_declarations_visible(&ent);
        self.make_potentially_visible_no_implicit(designator, ent);
        self.show_filed();
    }

    /// Makes `ent` potentially visible as `designator`, and nothing else.
    pub fn make_potentially_visible_no_implicit(&mut self, designator: Designator, ent: NamedEntity)
        ensures
            final(self).spec_regions() == old(self).spec_regions(),
            final(self).spec_visible() == add_visible(old(self).spec_visible(), designator, ent),
            filed(final(self).spec_visible()),
    {
        let mut visible = DeclarationMap::new();
        std::mem::swap(&mut visible, &mut self.visible);
        let (visible, prev) = visible.remove(&designator);
        let decl = match prev {
            Some(prev) => prev.push(ent),
            None => VisibleDeclaration::new(designator, ent),
        };
        self.visible = visible.insert(decl);
        proof {
            assert(self.spec_visible() =~= add_visible(old(self).spec_visible(), designator, ent));
        }
        self.show_filed();
    }

    /// Records in `visible` what this visibility makes potentially visible
    /// under `designator`.
    fn lookup_into<'a>(&'a self, designator: &Designator, visible: &mut Visible<'a>)
        ensures
            final(visible)@ == record_all(old(visible)@, visibility_candidates(*self, *designator)),
    {
        let ghost start = visible@;
        let mut i: usize = 0;
        while i < self.all_in_regions.len()
            invariant
                0 <= i <= self.all_in_regions@.len(),
                visible@ == record_all(start, regions_candidates(self.spec_regions().take(i as int), *designator)),
            decreases self.all_in_regions@.len() - i,
        {
            let region: &'a Arc<Region<'static>> = &self.all_in_regions[i];
            let ghost before = visible@;
            if let Some(decl) = region.decls.get(designator) {
                let mut k: usize = 0;
                while k < decl.named_entities.len()
                    invariant
                        0 <= k <= decl@.1.len(),
                        visible@ == record_all(before, decl@.1.take(k as int)),
                    decreases decl@.1.len() - k,
                {
                    visible.push(&decl.named_entities[k]);
                    proof {
                        assert(decl@.1.take(k + 1).drop_last() =~= decl@.1.take(k as int));
                    }
                    k = k + 1;
                }
                proof {
                    assert(decl@.1.take(k as int) =~= decl@.1);
                }
            }
            proof {
                let rs = self.spec_regions().take(i + 1);
                assert(rs.drop_last() =~= self.spec_regions().take(i as int));
                assert(rs.last() == self.spec_regions()[i as int]);
                lemma_record_all_append(
                    start,
                    regions_candidates(self.spec_regions().take(i as int), *designator),
                    entities_under(region.spec_decls(), *designator),
                );
            }
            i = i + 1;
        }
        proof {
            assert(self.spec_regions().take(i as int) =~= self.spec_regions());
        }
        let ghost middle = visible@;
        if let Some(decl) = self.visible.get(designator) {
            let mut k: usize = 0;
            while k < decl.named_entities.len()
                invariant
                    0 <= k <= decl@.1.len(),
                    visible@ == record_all(middle, decl@.1.take(k as int)),
                decreases decl@.1.len() - k,
            {
                visible.push(&decl.named_entities[k]);
                proof {
                    assert(decl@.1.take(k + 1).drop_last() =~= decl@.1.take(k as int));
                }
                k = k + 1;
            }
            proof {
                assert(decl@.1.take(k as int) =~= decl@.1);
            }
        }
        proof {
            lemma_record_all_append(
                start,
                regions_candidates(self.spec_regions(), *designator),
                entities_under(self.spec_visible(), *designator),
            );
        }
    }
}

/// The keys of the first `n` entries.
pub open spec fn keys_before<K, V>(entries: Seq<(K, V)>, n: int) -> Set<K> {
    Set::new(|k: K| exists|i: int| 0 <= i < n && entries[i].0 == k)
}

proof fn lemma_keys_before_all<K, V>(entries: Seq<(K, V)>, m: Map<K, V>)
    requires
        lists_entries(entries, m),
    ensures
        m.dom() =~= keys_before(entries, entries.len() as int).intersect(m.dom()),
        forall|k: K| keys_before(entries, entries.len() as int).contains(k) ==> m.contains_key(k),
{
    assert forall|k: K| keys_before(entries, entries.len() as int).contains(k) implies m.contains_key(k) by {
        let i = choose|i: int| 0 <= i < entries.len() && entries[i].0 == k;
        assert(entries[i] == entries[i]);
    }
}

proof fn lemma_merge_step(
    a: Map<Designator, DeclView>,
    b: Map<Designator, DeclView>,
    entries: Seq<(Designator, DeclView)>,
    j: int,
)
    requires
        0 <= j < entries.len(),
        lists_entries(entries, b),
        entries[j].1.1.len() > 0,
    ensures
        add_all_visible(merge_visible(a, b.restrict(keys_before(entries, j))), entries[j].0, entries[j].1.1)
            == merge_visible(a, b.restrict(keys_before(entries, j + 1))),
{
    let k = entries[j].0;
    assert(entries[j] == entries[j]);
    assert(!keys_before(entries, j).contains(k)) by {
        if keys_before(entries, j).contains(k) {
            let i = choose|i: int| 0 <= i < j && entries[i].0 == k;
            assert(entries[i] == entries[i]);
        }
    }
    assert(keys_before(entries, j + 1) =~= keys_before(entries, j).insert(k));
    let lhs = add_all_visible(merge_visible(a, b.restrict(keys_before(entries, j))), k, entries[j].1.1);
    let rhs = merge_visible(a, b.restrict(keys_before(entries, j + 1)));
    assert(lhs =~= rhs);
}

/// Entries of declarations, listed, are listed as views too.
proof fn lemma_lists_views<'m>(
    entries: Seq<(&'m Designator, &'m VisibleDeclaration)>,
    m: Map<Designator, VisibleDeclaration>,
)
    requires
        lists_entries(entries.map_values(|e: (&'m Designator, &'m VisibleDeclaration)| (*e.0, *e.1)), m),
    ensures
        lists_entries(entries.map_values(|e: (&'m Designator, &'m VisibleDeclaration)| (*e.0, e.1@)), decl_views(m)),
{
    let raw = entries.map_values(|e: (&'m Designator, &'m VisibleDeclaration)| (*e.0, *e.1));
    let views = entries.map_values(|e: (&'m Designator, &'m VisibleDeclaration)| (*e.0, e.1@));
    assert forall|i: int| #![trigger views[i]] 0 <= i < views.len() implies decl_views(m).contains_key(views[i].0)
        && views[i].1 == decl_views(m)[views[i].0] by {
        assert(raw[i] == raw[i]);
    }
    assert forall|i: int, j: int| #![trigger views[i], views[j]] 0 <= i < j < views.len() implies views[i].0
        != views[j].0 by {
        assert(raw[i] == raw[i] && raw[j] == raw[j]);
    }
    assert forall|k: Designator| #[trigger] decl_views(m).contains_key(k) implies exists|i: int|
        0 <= i < views.len() && views[i].0 == k by {
        assert(m.contains_key(k));
        let i = choose|i: int| 0 <= i < raw.len() && raw[i].0 == k;
        assert(views[i].0 == k);
    }
}

proof fn lemma_record_all_append(
    m: Map<Option<SrcPos>, NamedEntity>,
    a: Seq<NamedEntity>,
    b: Seq<NamedEntity>,
)
    ensures
        record_all(m, a + b) == record_all(record_all(m, a), b),
    decreases b.len(),
{
    if b.len() == 0 {
        assert(a + b =~= a);
    } else {
        assert((a + b).drop_last() =~= a + b.drop_last());
        lemma_record_all_append(m, a, b.drop_last());
    }
}



/// The first entity of `ents` that `ent` duplicates, if any.
pub open spec fn first_duplicate(ent: NamedEntity, ents: Seq<NamedEntity>) -> Option<NamedEntity>
    decreases ents.len(),
{
    if ents.len() == 0 {
        None
    } else if duplicates(ent, ents[0]) {
        Some(ents[0])
    } else {
        first_duplicate(ent, ents.drop_first())
    }
}

/// The diagnostic for a duplicate declaration of `name` at `pos`, related to
/// the earlier declaration at `prev_pos`.
pub open spec fn duplicate_diagnostic(name: Designator, pos: SrcPos, prev_pos: Option<SrcPos>) -> Diagnostic {
    Diagnostic { pos, message: Message::DuplicateDeclaration(name), severity: Severity::Error, related: prev_pos }
}

/// What declaring `ent` next to `prev` reports: a duplicate declaration at
/// `ent`, related to the first entity of `prev` that it duplicates, where
/// there is one and `ent` has a position.
pub open spec fn duplicate_diagnostics(ent: NamedEntity, prev: DeclView) -> Seq<Diagnostic> {
    match (first_duplicate(ent, prev.1), ent.spec_decl_pos()) {
        (Some(p), Some(pos)) => seq![duplicate_diagnostic(prev.0, pos, p.spec_decl_pos())],
        _ => Seq::empty(),
    }
}

pub open spec fn opt_duplicate_diagnostics(ent: NamedEntity, prev: Option<DeclView>) -> Seq<Diagnostic> {
    match prev {
        Some(p) => duplicate_diagnostics(ent, p),
        None => Seq::empty(),
    }
}

/// Whether `ent` duplicates an entity of `prev`.
pub open spec fn opt_has_duplicate(ent: NamedEntity, prev: Option<DeclView>) -> bool {
    match prev {
        Some(p) => first_duplicate(ent, p.1) is Some,
        None => false,
    }
}

/// A deferred constant outside a package declaration.
pub open spec fn deferred_misplaced(kind: RegionKind, ent: NamedEntity) -> bool {
    kind != RegionKind::PackageDeclaration && ent.spec_kind() is DeferredConstant
}

/// A full constant that completes the deferred constant `prev`, outside a
/// package body.
pub open spec fn full_misplaced(kind: RegionKind, ent: NamedEntity, prev: DeclView) -> bool {
    kind != RegionKind::PackageBody && ent.spec_kind() is Constant && first_of(prev).spec_kind() is DeferredConstant
}

pub open spec fn opt_full_misplaced(kind: RegionKind, ent: NamedEntity, prev: Option<DeclView>) -> bool {
    match prev {
        Some(p) => full_misplaced(kind, ent, p),
        None => false,
    }
}

/// The declarations and the new diagnostics after `ent` is declared as `d`
/// in a region of `kind` that holds `decls` and extends a region whose
/// declaration of `d` is `ext`. A misplaced deferred or full constant is
/// reported and not added; otherwise every duplicate (in this region, and in
/// the extended one) is reported, and `ent` is added only where there is
/// none.
pub open spec fn add_step(
    kind: RegionKind,
    ext: Option<DeclView>,
    decls: Map<Designator, DeclView>,
    d: Designator,
    ent: NamedEntity,
) -> (Map<Designator, DeclView>, Seq<Diagnostic>) {
    let prev = lookup_view(decls, d);
    if deferred_misplaced(kind, ent) {
        (decls, error_at(ent, Message::DeferredConstantOutsidePackage))
    } else if opt_full_misplaced(kind, ent, ext) || opt_full_misplaced(kind, ent, prev) {
        (decls, error_at(ent, Message::FullDeclarationOutsidePackageBody))
    } else {
        let diags = opt_duplicate_diagnostics(ent, prev) + opt_duplicate_diagnostics(ent, ext);
        if opt_has_duplicate(ent, prev) || opt_has_duplicate(ent, ext) {
            (decls, diags)
        } else {
            (add_visible(decls, d, ent), diags)
        }
    }
}

/// `add_step` for each of `steps` in order, collecting the diagnostics.
pub open spec fn add_all(
    kind: RegionKind,
    ext: Map<Designator, DeclView>,
    decls: Map<Designator, DeclView>,
    steps: Seq<(Designator, NamedEntity)>,
) -> (Map<Designator, DeclView>, Seq<Diagnostic>)
    decreases steps.len(),
{
    if steps.len() == 0 {
        (decls, Seq::empty())
    } else {
        let before = add_all(kind, ext, decls, steps.drop_last());
        let last = steps.last();
        let after = add_step(kind, lookup_view(ext, last.0), before.0, last.0, last.1);
        (after.0, before.1 + after.1)
    }
}

/// The implicit declarations of the type that `ent` (through aliases)
/// declares, if it has any.
pub open spec fn implicit_decls(ent: NamedEntity) -> Option<Map<Designator, DeclView>> {
    match actual(ent).spec_kind() {
        NamedEntityKind::TypeDeclaration(Some(implicit)) => Some(implicit.spec_decls()),
        _ => None,
    }
}

/// For each listed declaration and each of its entities, in order: the
/// declaration's designator and an entity of the same kind at `pos`.
pub open spec fn implicit_steps(entries: Seq<(Designator, DeclView)>, pos: Option<SrcPos>) -> Seq<
    (Designator, NamedEntity),
>
    decreases entries.len(),
{
    if entries.len() == 0 {
        Seq::empty()
    } else {
        let v = entries.last().1;
        implicit_steps(entries.drop_last(), pos) + v.1.map_values(
            |e: NamedEntity| (v.0, NamedEntity::make(e.spec_kind(), pos)),
        )
    }
}

/// Deferred constant without its full declaration: in a package declaration
/// (`in_body` false) every deferred constant; in a package body, a deferred
/// constant of the package that `own` does not complete with a constant.
pub open spec fn deferred_diagnostic(v: DeclView, own: Map<Designator, DeclView>, in_body: bool) -> Seq<Diagnostic> {
    if first_of(v).spec_kind() is DeferredConstant && !(in_body && own.contains_key(v.0) && first_of(
        own[v.0],
    ).spec_kind() is Constant) {
        error_at(first_of(v), Message::DeferredConstantWithoutFullDeclaration(v.0))
    } else {
        Seq::empty()
    }
}

pub open spec fn deferred_diagnostics(
    entries: Seq<(Designator, DeclView)>,
    own: Map<Designator, DeclView>,
    in_body: bool,
) -> Seq<Diagnostic>
    decreases entries.len(),
{
    if entries.len() == 0 {
        Seq::empty()
    } else {
        deferred_diagnostics(entries.drop_last(), own, in_body) + deferred_diagnostic(entries.last().1, own, in_body)
    }
}

/// The symbol of an identifier designator.
pub open spec fn identifier_of(d: Designator) -> Symbol {
    d->Identifier_0
}

/// Every protected type in `decls` is named by an identifier.
pub open spec fn protected_types_named(decls: Map<Designator, DeclView>) -> bool {
    forall|k: Designator|
        #![trigger decls[k]]
        decls.contains_key(k) && first_of(decls[k]).spec_kind() is ProtectedType ==> decls[k].0 is Identifier
}

/// The diagnostics that closing a region reports about a protected type
/// declared as `v` that has no body.
pub open spec fn protected_diagnostic<'a>(r: Region<'a>, v: DeclView) -> Seq<Diagnostic> {
    if first_of(v).spec_kind() is ProtectedType && protected_body(r, identifier_of(v.0)) is None {
        error_at(first_of(v), Message::MissingProtectedBody(v.0))
    } else {
        Seq::empty()
    }
}

pub open spec fn protected_diagnostics<'a>(r: Region<'a>, entries: Seq<(Designator, DeclView)>) -> Seq<Diagnostic>
    decreases entries.len(),
{
    if entries.len() == 0 {
        Seq::empty()
    } else {
        protected_diagnostics(r, entries.drop_last()) + protected_diagnostic(r, entries.last().1)
    }
}

/// `new` is what checking the deferred constants of `r` reports.
pub open spec fn deferred_pairs_reported<'a>(r: Region<'a>, new: Seq<Diagnostic>) -> bool {
    match r.spec_kind() {
        RegionKind::PackageDeclaration => exists|es: Seq<(Designator, DeclView)>|
            #![trigger deferred_diagnostics(es, r.spec_decls(), false)]
            lists_entries(es, r.spec_decls()) && new == deferred_diagnostics(es, r.spec_decls(), false),
        RegionKind::PackageBody => exists|es: Seq<(Designator, DeclView)>|
            #![trigger deferred_diagnostics(es, r.spec_decls(), true)]
            lists_entries(es, extended_decls(r)) && new == deferred_diagnostics(es, r.spec_decls(), true),
        RegionKind::Other => new == Seq::<Diagnostic>::empty(),
    }
}

/// `new` is what checking the protected types of `r` and of the region it
/// extends reports.
pub open spec fn protected_bodies_reported<'a>(r: Region<'a>, new: Seq<Diagnostic>) -> bool {
    exists|own: Seq<(Designator, DeclView)>, ext: Seq<(Designator, DeclView)>|
        #![trigger protected_diagnostics(r, own), protected_diagnostics(r, ext)]
        lists_entries(own, r.spec_decls()) && lists_entries(ext, extended_decls(r)) && new
            == protected_diagnostics(r, own) + protected_diagnostics(r, ext)
}

/// The declaration that an optional reference points at, as a view.
pub open spec fn ref_view(o: Option<&VisibleDeclaration>) -> Option<DeclView> {
    match o {
        Some(v) => Some(v@),
        None => None,
    }
}

/// Reports a duplicate declaration of `name` at `pos`, related to the
/// earlier declaration at `prev_pos` where it has one.
pub fn duplicate_error(name: &Designator, pos: &SrcPos, prev_pos: Option<&SrcPos>) -> (d: Diagnostic)
    ensures
        d == duplicate_diagnostic(*name, *pos, copied(prev_pos)),
{
    let mut diagnostic = Diagnostic::error(pos, Message::DuplicateDeclaration(*name));
    if let Some(prev_pos) = prev_pos {
        diagnostic.add_related(prev_pos);
    }
    diagnostic
}

/// Whether a region is a package declaration, a package body or anything else.
#[derive(Clone, Copy, Debug, PartialEq, Eq, Structural)]
pub enum RegionKind {
    PackageDeclaration,
    PackageBody,
    Other,
}

impl Default for RegionKind {
    fn default() -> (kind: RegionKind)
        ensures
            kind == RegionKind::Other,
    {
        RegionKind::Other
    }
}

/// A declarative region: the declarations of one scope, what use clauses
/// make potentially visible in it, and the regions that enclose it (its
/// parent) or that it completes (the region it extends, such as the package
/// declaration of a package body).
pub struct Region<'a> {
    parent: Option<&'a Region<'a>>,
    extends: Option<&'a Region<'a>>,
    visibility: Visibility,
    decls: DeclarationMap,
    protected_bodies: FnvHashMap<Symbol, SrcPos>,
    kind: RegionKind,
}

/// The declarations of the region that `r` extends; none where it extends
/// no region.
pub open spec fn extended_decls<'a>(r: Region<'a>) -> Map<Designator, DeclView> {
    match r.spec_extends() {
        Some(e) => e.spec_decls(),
        None => Map::empty(),
    }
}

/// The declaration under `d` in the region itself or, failing that, in the
/// region that it extends (regions are extended only once).
pub open spec fn local_lookup<'a>(r: Region<'a>, d: Designator) -> Option<DeclView> {
    if r.spec_decls().contains_key(d) {
        Some(r.spec_decls()[d])
    } else {
        lookup_view(extended_decls(r), d)
    }
}

/// The declaration under `d` in the region or the nearest enclosing region
/// that has one.
pub open spec fn enclosing_lookup<'a>(r: Region<'a>, d: Designator) -> Option<DeclView>
    decreases r,
{
    match local_lookup(r, d) {
        Some(v) => Some(v),
        None => match r.spec_parent() {
            Some(p) => enclosing_lookup(*p, d),
            None => None,
        },
    }
}

/// What is potentially visible under `d` from within `r`: its own
/// visibility, then that of the region it extends, then that of its parent.
pub open spec fn region_candidates<'a>(r: Region<'a>, d: Designator) -> Seq<NamedEntity>
    decreases r,
{
    visibility_candidates(r.spec_visibility(), d) + match r.spec_extends() {
        Some(e) => region_candidates(*e, d),
        None => Seq::empty(),
    } + match r.spec_parent() {
        Some(p) => region_candidates(*p, d),
        None => Seq::empty(),
    }
}

/// The body of the protected type `name` in the region or, failing that, in
/// the regions that it extends.
pub open spec fn protected_body<'a>(r: Region<'a>, name: Symbol) -> Option<SrcPos>
    decreases r,
{
    if r.spec_protected_bodies().contains_key(name) {
        Some(r.spec_protected_bodies()[name])
    } else {
        match r.spec_extends() {
            Some(e) => protected_body(*e, name),
            None => None,
        }
    }
}

/// The outcome of looking up `d` from within `r`, for a lookup at `pos`.
pub open spec fn lookup_within_outcome<'a>(
    r: Region<'a>,
    pos: SrcPos,
    d: Designator,
    res: Result<VisibleDeclaration, Diagnostic>,
) -> bool {
    match enclosing_lookup(r, d) {
        Some(v) => res matches Ok(x) && x@ == v,
        None => exists|ents: Seq<NamedEntity>|
            #![trigger lists_values(ents, record_all(Map::empty(), region_candidates(r, d)))]
            lists_values(ents, record_all(Map::empty(), region_candidates(r, d))) && if ents.len() == 0 {
                res == Err::<VisibleDeclaration, Diagnostic>(error_diagnostic(pos, Message::NoDeclaration(d)))
            } else if unambiguous(ents) {
                res matches Ok(x) && x@ == (d, ents)
            } else {
                res == Err::<VisibleDeclaration, Diagnostic>(
                    error_diagnostic(pos, Message::HiddenByUseClause(d)),
                )
            },
    }
}

impl<'a> Region<'a> {
    pub closed spec fn spec_parent(&self) -> Option<&'a Region<'a>> {
        self.parent
    }

    pub closed spec fn spec_extends(&self) -> Option<&'a Region<'a>> {
        self.extends
    }

    pub closed spec fn spec_visibility(&self) -> Visibility {
        self.visibility
    }

    pub closed spec fn spec_decls(&self) -> Map<Designator, DeclView> {
        self.decls@
    }

    pub closed spec fn spec_protected_bodies(&self) -> Map<Symbol, SrcPos> {
        self.protected_bodies@
    }

    pub closed spec fn spec_kind(&self) -> RegionKind {
        self.kind
    }

    /// Nothing is declared or visible in the region.
    pub open spec fn is_blank(&self) -> bool {
        &&& self.spec_decls() == Map::<Designator, DeclView>::empty()
        &&& self.spec_protected_bodies() == Map::<Symbol, SrcPos>::empty()
        &&& self.spec_visibility().spec_regions() == Seq::<Arc<Region<'static>>>::empty()
        &&& self.spec_visibility().spec_visible() == Map::<Designator, DeclView>::empty()
    }

    /// All but the visibility is the same as in `other`.
    pub open spec fn same_except_visibility(&self, other: Region<'a>) -> bool {
        &&& self.spec_parent() == other.spec_parent()
        &&& self.spec_extends() == other.spec_extends()
        &&& self.spec_decls() == other.spec_decls()
        &&& self.spec_protected_bodies() == other.spec_protected_bodies()
        &&& self.spec_kind() == other.spec_kind()
    }

    /// All but the protected type bodies is the same as in `other`.
    pub open spec fn same_except_protected_bodies(&self, other: Region<'a>) -> bool {
        &&& self.spec_parent() == other.spec_parent()
        &&& self.spec_extends() == other.spec_extends()
        &&& self.spec_visibility() == other.spec_visibility()
        &&& self.spec_decls() == other.spec_decls()
        &&& self.spec_kind() == other.spec_kind()
    }

    /// All but the declarations is the same as in `other`.
    pub open spec fn same_except_decls(&self, other: Region<'a>) -> bool {
        &&& self.spec_parent() == other.spec_parent()
        &&& self.spec_extends() == other.spec_extends()
        &&& self.spec_visibility() == other.spec_visibility()
        &&& self.spec_protected_bodies() == other.spec_protected_bodies()
        &&& self.spec_kind() == other.spec_kind()
    }

    /// The region's declarations, and those made visible by name, are each
    /// filed under their own designator with at least one entity.
    pub open spec fn is_filed(&self) -> bool {
        filed(self.spec_decls()) && filed(self.spec_visibility().spec_visible())
    }

    /// Every region is filed (its maps keep it so).
    fn show_filed(&self)
        ensures
            self.is_filed(),
    {
        proof {
            use_type_invariant(&self.decls);
            self.decls.lemma_views();
            use_type_invariant(&self.visibility.visible);
            self.visibility.visible.lemma_views();
        }
    }

    /// An empty region that encloses nothing and extends nothing.
    pub fn default() -> (r: Region<'static>)
        ensures
            r.spec_parent() is None,
            r.spec_extends() is None,
            r.spec_kind() == RegionKind::Other,
            r.is_blank(),
    {
        let r = Region {
            parent: None,
            extends: None,
            visibility: Visibility::default(),
            decls: DeclarationMap::new(),
            protected_bodies: FnvHashMap::default(),
            kind: RegionKind::Other,
        };
        proof {
            assert(r.spec_decls() =~= Map::<Designator, DeclView>::empty());
        }
        r
    }

    /// An empty region enclosed by this one.
    pub fn nested(&'a self) -> (r: Region<'a>)
        ensures
            r.spec_parent() == Some(self),
            r.spec_extends() is None,
            r.spec_kind() == RegionKind::Other,
            r.is_blank(),
    {
        let r = Region {
            parent: Some(self),
            extends: None,
            visibility: Visibility::default(),
            decls: DeclarationMap::new(),
            protected_bodies: FnvHashMap::default(),
            kind: RegionKind::Other,
        };
        proof {
            assert(r.spec_decls() =~= Map::<Designator, DeclView>::empty());
        }
        r
    }

    /// The same region, detached from its parent and from the region it
    /// extends.
    pub fn without_parent(self) -> (r: Region<'static>)
        ensures
            r.spec_parent() is None,
            r.spec_extends() is None,
            r.spec_visibility() == self.spec_visibility(),
            r.spec_decls() == self.spec_decls(),
            r.spec_protected_bodies() == self.spec_protected_bodies(),
            r.spec_kind() == self.spec_kind(),
    {
        Region {
            parent: None,
            extends: None,
            visibility: self.visibility,
            decls: self.decls,
            protected_bodies: self.protected_bodies,
            kind: self.kind,
        }
    }

    /// The same region, as a package declaration.
    pub fn in_package_declaration(self) -> (r: Region<'a>)
        ensures
            r.spec_kind() == RegionKind::PackageDeclaration,
            r.spec_parent() == self.spec_parent(),
            r.spec_extends() == self.spec_extends(),
            r.spec_visibility() == self.spec_visibility(),
            r.spec_decls() == self.spec_decls(),
            r.spec_protected_bodies() == self.spec_protected_bodies(),
    {
        let mut r = self;
        r.kind = RegionKind::PackageDeclaration;
        r
    }

    /// An empty region that extends `region` (a package body extends its
    /// package declaration), within `parent`. Regions are extended in pairs
    /// only: `region` extends no other region.
    pub fn extend(region: &'a Region<'a>, parent: Option<&'a Region<'a>>) -> (r: Region<'a>)
        requires
            region.spec_extends() is None,
        ensures
            r.spec_parent() == parent,
            r.spec_extends() == Some(region),
            r.spec_kind() == (if region.spec_kind() == RegionKind::PackageDeclaration {
                RegionKind::PackageBody
            } else {
                RegionKind::Other
            }),
            r.is_blank(),
    {
        let kind = match region.kind {
            RegionKind::PackageDeclaration => RegionKind::PackageBody,
            _ => RegionKind::Other,
        };
        let r = Region {
            parent,
            extends: Some(region),
            visibility: Visibility::default(),
            decls: DeclarationMap::new(),
            protected_bodies: FnvHashMap::default(),
            kind,
        };
        proof {
            assert(r.spec_decls() =~= Map::<Designator, DeclView>::empty());
        }
        r
    }

    /// Makes `ent` potentially visible as `designator` in this region, together
    /// with the implicit declarations that come with it.
    pub fn make_potentially_visible(&mut self, designator: Designator, ent: NamedEntity)
        ensures
            final(self).spec_visibility().spec_regions() == old(self).spec_visibility().spec_regions()
                + implicit_regions(ent),
            final(self).spec_visibility().spec_visible() == add_visible(
                old(self).spec_visibility().spec_visible(),
                designator,
                ent,
            ),
            final(self).same_except_visibility(*old(self)),
            final(self).is_filed(),
    {
        self.visibility.make_potentially_visible(designator, ent);
        self.show_filed();
    }

    /// Makes every declaration of `region` potentially visible in this region.
    pub fn make_all_potentially_visible(&mut self, region: &Arc<Region<'static>>)
        ensures
            final(self).spec_visibility().spec_regions() == old(self).spec_visibility().spec_regions().push(
                *region,
            ),
            final(self).spec_visibility().spec_visible() == old(self).spec_visibility().spec_visible(),
            final(self).same_except_visibility(*old(self)),
            final(self).is_filed(),
    {
        self.visibility.make_all_potentially_visible(region);
        self.show_filed();
    }

    /// Adds what `region` makes potentially visible (used for context
    /// clauses; the parent of `region` is not consulted).
    pub fn add_context_visibility(&mut self, region: &Region<'a>)
        ensures
            final(self).spec_visibility().spec_regions() == old(self).spec_visibility().spec_regions()
                + region.spec_visibility().spec_regions(),
            final(self).spec_visibility().spec_visible() == merge_visible(
                old(self).spec_visibility().spec_visible(),
                region.spec_visibility().spec_visible(),
            ),
            final(self).same_except_visibility(*old(self)),
            final(self).is_filed(),
    {
        self.visibility.add_context_visibility(&region.visibility);
        self.show_filed();
    }

    /// Makes the library `library_name` potentially visible as `designator`.
    pub fn make_library_visible(&mut self, designator: Designator, library_name: &Symbol)
        ensures
            final(self).spec_visibility().spec_regions() == old(self).spec_visibility().spec_regions(),
            final(self).spec_visibility().spec_visible() == add_visible(
                old(self).spec_visibility().spec_visible(),
                designator,
                NamedEntity::make(NamedEntityKind::Library(*library_name), None),
            ),
            final(self).same_except_visibility(*old(self)),
            final(self).is_filed(),
    {
        let ent = NamedEntity { decl_pos: None, kind: NamedEntityKind::Library(*library_name) };
        proof {
            assert(implicit_regions(ent) =~= Seq::<Arc<Region<'static>>>::empty());
        }
        self.make_potentially_visible(designator, ent);
        proof {
            assert(self.spec_visibility().spec_regions() =~= old(self).spec_visibility().spec_regions());
        }
        self.show_filed();
    }

    /// The declaration of `designator` in this region (or the region it
    /// extends) or in the nearest enclosing region that has one; what use
    /// clauses make visible is not consulted.
    pub fn lookup_immediate(&self, designator: &Designator) -> (found: Option<VisibleDeclaration>)
        ensures
            self.is_filed(),
            opt_view(found) == enclosing_lookup(*self, *designator),
            found matches Some(v) ==> v@.0 == *designator && v@.1.len() > 0,
        decreases self,
    {
        self.show_filed();
        let decl = match self.decls.get(designator) {
            Some(decl) => Some(decl),
            // Regions can only be extended once
            None => match self.extends {
                Some(region) => region.decls.get(designator),
                None => None,
            },
        };
        match decl {
            Some(decl) => {
                proof {
                    use_type_invariant(decl);
                }
                Some(decl.copy())
            },
            None => match self.parent {
                Some(parent) => parent.lookup_immediate(designator),
                None => None,
            },
        }
    }

    /// The declaration of `designator` in this region or the nearest
    /// enclosing region that has one.
    fn lookup_enclosing(&self, designator: &Designator) -> (found: Option<VisibleDeclaration>)
        ensures
            opt_view(found) == enclosing_lookup(*self, *designator),
    {
        // The region that this one extends has the same parent, except for
        // a protected type split into package and package body, where the
        // parent of the body is that same package anyway. The immediate
        // lookup already walks the enclosing regions.
        self.lookup_immediate(designator)
    }

    fn lookup_visiblity_into(&'a self, designator: &Designator, visible: &mut Visible<'a>)
        ensures
            final(visible)@ == record_all(old(visible)@, region_candidates(*self, *designator)),
        decreases self,
    {
        let ghost start = visible@;
        self.visibility.lookup_into(designator, visible);
        let ghost after_own = visible@;
        if let Some(extends) = self.extends {
            extends.lookup_visiblity_into(designator, visible);
        }
        let ghost after_extends = visible@;
        if let Some(parent) = self.parent {
            parent.lookup_visiblity_into(designator, visible);
        }
        proof {
            let own = visibility_candidates(self.visibility, *designator);
            let ext = match self.extends {
                Some(e) => region_candidates(*e, *designator),
                None => Seq::empty(),
            };
            let par = match self.parent {
                Some(p) => region_candidates(*p, *designator),
                None => Seq::empty(),
            };
            assert(after_extends == record_all(after_own, ext)) by {
                if self.extends is None {
                    assert(record_all(after_own, ext) == after_own);
                }
            }
            assert(visible@ == record_all(after_extends, par)) by {
                if self.parent is None {
                    assert(record_all(after_extends, par) == after_extends);
                }
            }
            lemma_record_all_append(start, own, ext);
            lemma_record_all_append(start, own + ext, par);
        }
    }

    /// What use clauses make potentially visible under `designator`.
    fn lookup_visible(&self, designator: &Designator) -> (r: Result<Option<VisibleDeclaration>, Hidden>)
        ensures
            exists|ents: Seq<NamedEntity>|
                #![trigger lists_values(ents, record_all(Map::empty(), region_candidates(*self, *designator)))]
                lists_values(ents, record_all(Map::empty(), region_candidates(*self, *designator))) && if ents.len() == 0 {
                    r matches Ok(None)
                } else if unambiguous(ents) {
                    r matches Ok(Some(v)) && v@ == (*designator, ents)
                } else {
                    r is Err
                },
    {
        let mut visible = Visible::default();
        self.lookup_visiblity_into(designator, &mut visible);
        visible.into_unambiguous(designator)
    }

    /// Looks up a name where this region is the prefix of a selected name:
    /// what use clauses make visible inside the region does not count.
    pub fn lookup_selected(&self, designator: &Designator) -> (found: Option<VisibleDeclaration>)
        ensures
            self.is_filed(),
            opt_view(found) == enclosing_lookup(*self, *designator),
            found matches Some(v) ==> v@.0 == *designator && v@.1.len() > 0,
    {
        self.show_filed();
        self.lookup_immediate(designator)
    }

    /// Looks up a name from within the region: the declarations of the
    /// region and those enclosing it come first; failing those, what use
    /// clauses make potentially visible, which must not hide each other.
    pub fn lookup_within(&self, pos: &SrcPos, designator: &Designator) -> (r: Result<VisibleDeclaration, Diagnostic>)
        ensures
            self.is_filed(),
            lookup_within_outcome(*self, *pos, *designator, r),
    {
        self.show_filed();
        match self.lookup_enclosing(designator) {
            Some(visible) => Ok(visible),
            None => match self.lookup_visible(designator) {
                Ok(Some(visible)) => Ok(visible),
                Ok(None) => Err(Diagnostic::error(pos, Message::NoDeclaration(*designator))),
                Err(_) => Err(Diagnostic::error(pos, Message::HiddenByUseClause(*designator))),
            },
        }
    }
}

proof fn lemma_first_duplicate_skip(ent: NamedEntity, ents: Seq<NamedEntity>, i: int)
    requires
        0 <= i < ents.len(),
    ensures
        first_duplicate(ent, ents.skip(i)) == if duplicates(ent, ents[i]) {
            Some(ents[i])
        } else {
            first_duplicate(ent, ents.skip(i + 1))
        },
{
    assert(ents.skip(i)[0] == ents[i]);
    assert(ents.skip(i).drop_first() =~= ents.skip(i + 1));
}

impl<'a> Region<'a> {
    /// Reports a deferred constant outside a package declaration; true when
    /// there is none to report.
    fn check_deferred_constant_only_in_package(&self, ent: &NamedEntity, diagnostics: &mut Vec<Diagnostic>) -> (ok: bool)
        ensures
            ok == !deferred_misplaced(self.spec_kind(), *ent),
            final(diagnostics)@ == old(diagnostics)@ + if ok {
                Seq::empty()
            } else {
                error_at(*ent, Message::DeferredConstantOutsidePackage)
            },
    {
        if self.kind != RegionKind::PackageDeclaration && ent.kind.is_deferred_constant() {
            ent.error(diagnostics, Message::DeferredConstantOutsidePackage);
            false
        } else {
            proof {
                assert(old(diagnostics)@ + Seq::<Diagnostic>::empty() =~= old(diagnostics)@);
            }
            true
        }
    }

    /// Reports the full declaration of the deferred constant `prev_decl`
    /// outside a package body; true when there is none to report.
    fn check_full_constand_of_deferred_only_in_body(
        &self,
        ent: &NamedEntity,
        prev_decl: &VisibleDeclaration,
        diagnostics: &mut Vec<Diagnostic>,
    ) -> (ok: bool)
        ensures
            ok == !full_misplaced(self.spec_kind(), *ent, prev_decl@),
            final(diagnostics)@ == old(diagnostics)@ + if ok {
                Seq::empty()
            } else {
                error_at(*ent, Message::FullDeclarationOutsidePackageBody)
            },
    {
        proof {
            assert(old(diagnostics)@ + Seq::<Diagnostic>::empty() =~= old(diagnostics)@);
        }
        if self.kind != RegionKind::PackageBody && ent.kind.is_non_deferred_constant() {
            if prev_decl.first_kind().is_deferred_constant() {
                ent.error(diagnostics, Message::FullDeclarationOutsidePackageBody);
                return false;
            }
        }
        true
    }

    /// Checks the deferred constants, then the protected types, when the
    /// region is complete. Nothing changes but `diagnostics`.
    pub fn close(&mut self, diagnostics: &mut Vec<Diagnostic>)
        requires
            old(self).spec_kind() == RegionKind::PackageBody ==> old(self).spec_extends() is Some,
            protected_types_named(old(self).spec_decls()),
            protected_types_named(extended_decls(*old(self))),
        ensures
            *final(self) == *old(self),
            exists|deferred: Seq<Diagnostic>, protected: Seq<Diagnostic>|
                #![trigger deferred_pairs_reported(*old(self), deferred), protected_bodies_reported(*old(self), protected)]
                deferred_pairs_reported(*old(self), deferred) && protected_bodies_reported(*old(self), protected)
                    && final(diagnostics)@ == old(diagnostics)@ + deferred + protected,
    {
        let ghost start = diagnostics@;
        self.check_deferred_constant_pairs(diagnostics);
        let ghost middle = diagnostics@;
        self.check_protected_types_have_body(diagnostics);
        proof {
            let deferred = middle.subrange(start.len() as int, middle.len() as int);
            let protected = diagnostics@.subrange(middle.len() as int, diagnostics@.len() as int);
            assert(middle =~= start + deferred);
            assert(diagnostics@ =~= start + deferred + protected);
            assert(deferred_pairs_reported(*self, deferred));
            assert(protected_bodies_reported(*self, protected));
        }
    }

    /// Reports the deferred constants that lack a full declaration.
    fn check_deferred_constant_pairs(&self, diagnostics: &mut Vec<Diagnostic>)
        requires
            self.spec_kind() == RegionKind::PackageBody ==> self.spec_extends() is Some,
        ensures
            final(diagnostics)@.len() >= old(diagnostics)@.len(),
            final(diagnostics)@.subrange(0, old(diagnostics)@.len() as int) == old(diagnostics)@,
            deferred_pairs_reported(
                *self,
                final(diagnostics)@.subrange(old(diagnostics)@.len() as int, final(diagnostics)@.len() as int),
            ),
    {
        let ghost start = diagnostics@;
        match self.kind {
            // A package without a body may not have deferred constants
            RegionKind::PackageDeclaration => {
                let entries = self.decls.entries();
                let ghost listed = entries@.map_values(|e: (&Designator, &VisibleDeclaration)| (*e.0, e.1@));
                let mut i: usize = 0;
                while i < entries.len()
                    invariant
                        0 <= i <= entries@.len(),
                        listed == entries@.map_values(|e: (&Designator, &VisibleDeclaration)| (*e.0, e.1@)),
                        diagnostics@ == start + deferred_diagnostics(listed.take(i as int), self.spec_decls(), false),
                    decreases entries@.len() - i,
                {
                    let (_, decl) = entries[i];
                    let ghost before = diagnostics@;
                    match decl.first_kind() {
                        NamedEntityKind::DeferredConstant => {
                            decl.first().error(
                                diagnostics,
                                Message::DeferredConstantWithoutFullDeclaration(decl.designator),
                            );
                        },
                        _ => {},
                    }
                    proof {
                        assert(listed.take(i + 1).drop_last() =~= listed.take(i as int));
                        assert(listed[i as int] == (*entries@[i as int].0, decl@));
                        assert(diagnostics@ =~= before + deferred_diagnostic(decl@, self.spec_decls(), false));
                    }
                    i = i + 1;
                }
                proof {
                    assert(listed.take(i as int) =~= listed);
                    let new = diagnostics@.subrange(start.len() as int, diagnostics@.len() as int);
                    assert(new =~= deferred_diagnostics(listed, self.spec_decls(), false));
                }
            },
            RegionKind::PackageBody => {
                let extends = match self.extends {
                    Some(extends) => extends,
                    None => vstd::pervasive::unreached(),
                };
                let entries = extends.decls.entries();
                let ghost listed = entries@.map_values(|e: (&Designator, &VisibleDeclaration)| (*e.0, e.1@));
                let mut i: usize = 0;
                while i < entries.len()
                    invariant
                        0 <= i <= entries@.len(),
                        listed == entries@.map_values(|e: (&Designator, &VisibleDeclaration)| (*e.0, e.1@)),
                        diagnostics@ == start + deferred_diagnostics(listed.take(i as int), self.spec_decls(), true),
                    decreases entries@.len() - i,
                {
                    let (_, ext_decl) = entries[i];
                    let ghost before = diagnostics@;
                    match ext_decl.first_kind() {
                        NamedEntityKind::DeferredConstant => {
                            // A deferred constant of the package is completed
                            // only by a constant in the body
                            let mut found = false;
                            if let Some(decl) = self.decls.get(&ext_decl.designator) {
                                if let NamedEntityKind::Constant = decl.first_kind() {
                                    found = true;
                                }
                            }
                            if !found {
                                ext_decl.first().error(
                                    diagnostics,
                                    Message::DeferredConstantWithoutFullDeclaration(ext_decl.designator),
                                );
                            }
                        },
                        _ => {},
                    }
                    proof {
                        assert(listed.take(i + 1).drop_last() =~= listed.take(i as int));
                        assert(listed[i as int] == (*entries@[i as int].0, ext_decl@));
                        assert(diagnostics@ =~= before + deferred_diagnostic(ext_decl@, self.spec_decls(), true));
                    }
                    i = i + 1;
                }
                proof {
                    assert(listed.take(i as int) =~= listed);
                    let new = diagnostics@.subrange(start.len() as int, diagnostics@.len() as int);
                    assert(new =~= deferred_diagnostics(listed, self.spec_decls(), true));
                }
            },
            RegionKind::Other => {
                proof {
                    assert(diagnostics@.subrange(start.len() as int, diagnostics@.len() as int) =~= Seq::<Diagnostic>::empty());
                }
            },
        }
        proof {
            assert(diagnostics@.subrange(0, start.len() as int) =~= start);
        }
    }

    fn get_protected_body(&self, name: &Symbol) -> (pos: Option<&SrcPos>)
        ensures
            copied(pos) == protected_body(*self, *name),
        decreases self,
    {
        match symbol_map_get(&self.protected_bodies, name) {
            Some(pos) => Some(pos),
            None => match self.extends {
                Some(extends) => extends.get_protected_body(name),
                None => None,
            },
        }
    }

    fn has_protected_body(&self, name: &Symbol) -> (b: bool)
        ensures
            b == (protected_body(*self, *name) is Some),
    {
        self.get_protected_body(name).is_some()
    }

    /// Reports the protected types, here and in the extended region, that
    /// have no body.
    fn check_protected_types_have_body(&self, diagnostics: &mut Vec<Diagnostic>)
        requires
            protected_types_named(self.spec_decls()),
            protected_types_named(extended_decls(*self)),
        ensures
            final(diagnostics)@.len() >= old(diagnostics)@.len(),
            final(diagnostics)@.subrange(0, old(diagnostics)@.len() as int) == old(diagnostics)@,
            protected_bodies_reported(
                *self,
                final(diagnostics)@.subrange(old(diagnostics)@.len() as int, final(diagnostics)@.len() as int),
            ),
    {
        let ghost start = diagnostics@;
        let entries = self.decls.entries();
        let ghost own = entries@.map_values(|e: (&Designator, &VisibleDeclaration)| (*e.0, e.1@));
        let mut i: usize = 0;
        while i < entries.len()
            invariant
                0 <= i <= entries@.len(),
                own == entries@.map_values(|e: (&Designator, &VisibleDeclaration)| (*e.0, e.1@)),
                lists_entries(own, self.spec_decls()),
                protected_types_named(self.spec_decls()),
                diagnostics@ == start + protected_diagnostics(*self, own.take(i as int)),
            decreases entries@.len() - i,
        {
            let (key, decl) = entries[i];
            let ghost before = diagnostics@;
            proof {
                assert(own[i as int] == (*key, decl@));
                assert(self.spec_decls().contains_key(*key) && self.spec_decls()[*key] == decl@);
            }
            if decl.first_kind().is_protected_type() {
                if !self.has_protected_body(decl.designator.expect_identifier()) {
                    decl.first().error(diagnostics, Message::MissingProtectedBody(decl.designator));
                }
            }
            proof {
                assert(own.take(i + 1).drop_last() =~= own.take(i as int));
                assert(diagnostics@ =~= before + protected_diagnostic(*self, decl@));
            }
            i = i + 1;
        }
        proof {
            assert(own.take(i as int) =~= own);
        }
        let ghost middle = diagnostics@;
        let ghost ext = Seq::<(Designator, DeclView)>::empty();
        if let Some(extends) = self.extends {
            let ext_entries = extends.decls.entries();
            proof {
                ext = ext_entries@.map_values(|e: (&Designator, &VisibleDeclaration)| (*e.0, e.1@));
            }
            let mut j: usize = 0;
            while j < ext_entries.len()
                invariant
                    0 <= j <= ext_entries@.len(),
                    ext == ext_entries@.map_values(|e: (&Designator, &VisibleDeclaration)| (*e.0, e.1@)),
                    lists_entries(ext, extended_decls(*self)),
                    protected_types_named(extended_decls(*self)),
                    diagnostics@ == middle + protected_diagnostics(*self, ext.take(j as int)),
                decreases ext_entries@.len() - j,
            {
                let (key, ext_decl) = ext_entries[j];
                let ghost before = diagnostics@;
                proof {
                    assert(ext[j as int] == (*key, ext_decl@));
                    assert(extended_decls(*self).contains_key(*key) && extended_decls(*self)[*key] == ext_decl@);
                }
                if ext_decl.first_kind().is_protected_type() {
                    if !self.has_protected_body(ext_decl.designator.expect_identifier()) {
                        ext_decl.first().error(diagnostics, Message::MissingProtectedBody(ext_decl.designator));
                    }
                }
                proof {
                    assert(ext.take(j + 1).drop_last() =~= ext.take(j as int));
                    assert(diagnostics@ =~= before + protected_diagnostic(*self, ext_decl@));
                }
                j = j + 1;
            }
            proof {
                assert(ext.take(j as int) =~= ext);
            }
        } else {
            proof {
                assert(lists_entries(ext, extended_decls(*self)));
                assert(diagnostics@ =~= middle + protected_diagnostics(*self, ext));
            }
        }
        proof {
            let new = diagnostics@.subrange(start.len() as int, diagnostics@.len() as int);
            assert(new =~= protected_diagnostics(*self, own) + protected_diagnostics(*self, ext));
            assert(diagnostics@.subrange(0, start.len() as int) =~= start);
        }
    }
}

impl<'a> Region<'a> {
    /// Reports the first entity of `prev_decl` that `ent` duplicates; true
    /// when there is none. Completing a deferred constant or an incomplete
    /// type is no duplicate; protected type bodies are recorded apart.
    fn check_duplicate(ent: &NamedEntity, prev_decl: &VisibleDeclaration, diagnostics: &mut Vec<Diagnostic>) -> (ok: bool)
        ensures
            ok == (first_duplicate(*ent, prev_decl@.1) is None),
            final(diagnostics)@ == old(diagnostics)@ + duplicate_diagnostics(*ent, prev_decl@),
    {
        let mut i: usize = 0;
        proof {
            assert(prev_decl@.1.skip(0) =~= prev_decl@.1);
        }
        while i < prev_decl.named_entities.len()
            invariant
                0 <= i <= prev_decl@.1.len(),
                first_duplicate(*ent, prev_decl@.1) == first_duplicate(*ent, prev_decl@.1.skip(i as int)),
                diagnostics@ == old(diagnostics)@,
            decreases prev_decl@.1.len() - i,
        {
            let prev_ent = &prev_decl.named_entities[i];
            proof {
                lemma_first_duplicate_skip(*ent, prev_decl@.1, i as int);
            }
            if ent.is_duplicate_of(prev_ent) {
                if let Some(ref pos) = ent.decl_pos {
                    diagnostics.push(duplicate_error(&prev_decl.designator, pos, prev_ent.decl_pos.as_ref()));
                }
                proof {
                    assert(diagnostics@ =~= old(diagnostics)@ + duplicate_diagnostics(*ent, prev_decl@));
                }
                return false;
            }
            i = i + 1;
        }
        proof {
            assert(prev_decl@.1.skip(i as int).len() == 0);
            assert(diagnostics@ =~= old(diagnostics)@ + duplicate_diagnostics(*ent, prev_decl@));
        }
        true
    }

    /// Reports the duplicates of `ent` in the declaration of the same name in
    /// this region and in the region it extends; true when there are none.
    fn check_add(
        ent: &NamedEntity,
        prev_decl: Option<&VisibleDeclaration>,
        ext_decl: Option<&VisibleDeclaration>,
        diagnostics: &mut Vec<Diagnostic>,
    ) -> (ok: bool)
        ensures
            ok == !(opt_has_duplicate(*ent, ref_view(prev_decl)) || opt_has_duplicate(*ent, ref_view(ext_decl))),
            final(diagnostics)@ == old(diagnostics)@ + opt_duplicate_diagnostics(*ent, ref_view(prev_decl))
                + opt_duplicate_diagnostics(*ent, ref_view(ext_decl)),
    {
        let mut check_ok = true;
        if let Some(prev_decl) = prev_decl {
            if !Self::check_duplicate(ent, prev_decl, diagnostics) {
                check_ok = false;
            }
        }
        let ghost middle = diagnostics@;
        if let Some(ext_decl) = ext_decl {
            if !Self::check_duplicate(ent, ext_decl, diagnostics) {
                check_ok = false;
            }
        }
        proof {
            assert(middle =~= old(diagnostics)@ + opt_duplicate_diagnostics(*ent, ref_view(prev_decl)));
            assert(diagnostics@ =~= middle + opt_duplicate_diagnostics(*ent, ref_view(ext_decl)));
        }
        check_ok
    }

    /// Declares `ent` as `designator`, or reports why it cannot be.
    fn add_named_entity(&mut self, designator: Designator, ent: NamedEntity, diagnostics: &mut Vec<Diagnostic>)
        ensures
            final(self).spec_decls() == add_step(
                old(self).spec_kind(),
                lookup_view(extended_decls(*old(self)), designator),
                old(self).spec_decls(),
                designator,
                ent,
            ).0,
            final(diagnostics)@ == old(diagnostics)@ + add_step(
                old(self).spec_kind(),
                lookup_view(extended_decls(*old(self)), designator),
                old(self).spec_decls(),
                designator,
                ent,
            ).1,
            final(self).same_except_decls(*old(self)),
    {
        let ext_decl: Option<&VisibleDeclaration> = match self.extends {
            Some(extends) => extends.decls.get(&designator),
            None => None,
        };
        proof {
            assert(ref_view(ext_decl) == lookup_view(extended_decls(*self), designator));
        }
        if !self.check_deferred_constant_only_in_package(&ent, diagnostics) {
            return;
        }
        if let Some(ext_decl) = ext_decl {
            if !self.check_full_constand_of_deferred_only_in_body(&ent, ext_decl, diagnostics) {
                return;
            }
        }
        if let Some(prev_decl) = self.decls.get(&designator) {
            if !self.check_full_constand_of_deferred_only_in_body(&ent, prev_decl, diagnostics) {
                return;
            }
        }
        proof {
            assert(old(diagnostics)@ + Seq::<Diagnostic>::empty() =~= old(diagnostics)@);
        }
        let mut decls = DeclarationMap::new();
        std::mem::swap(&mut decls, &mut self.decls);
        let (decls, prev_decl) = decls.remove(&designator);
        let decls = match prev_decl {
            Some(prev_decl) => {
                if Self::check_add(&ent, Some(&prev_decl), ext_decl, diagnostics) {
                    decls.insert(prev_decl.push(ent))
                } else {
                    decls.insert(prev_decl)
                }
            },
            None => {
                if Self::check_add(&ent, None, ext_decl, diagnostics) {
                    decls.insert(VisibleDeclaration::new(designator, ent))
                } else {
                    decls
                }
            },
        };
        self.decls = decls;
        proof {
            let expected = add_step(
                old(self).spec_kind(),
                lookup_view(extended_decls(*old(self)), designator),
                old(self).spec_decls(),
                designator,
                ent,
            );
            assert(self.spec_decls() =~= expected.0);
        }
    }

    /// Declares an entity of `kind` at the designator's position.
    pub fn add(&mut self, designator: WithPos<Designator>, kind: NamedEntityKind, diagnostics: &mut Vec<Diagnostic>)
        ensures
            final(self).spec_decls() == add_step(
                old(self).spec_kind(),
                lookup_view(extended_decls(*old(self)), designator.item),
                old(self).spec_decls(),
                designator.item,
                NamedEntity::make(kind, Some(designator.pos)),
            ).0,
            final(diagnostics)@ == old(diagnostics)@ + add_step(
                old(self).spec_kind(),
                lookup_view(extended_decls(*old(self)), designator.item),
                old(self).spec_decls(),
                designator.item,
                NamedEntity::make(kind, Some(designator.pos)),
            ).1,
            final(self).same_except_decls(*old(self)),
            final(self).is_filed(),
    {
        let ent = NamedEntity::new(kind, Some(&designator.pos));
        self.add_named_entity(designator.item, ent, diagnostics);
        self.show_filed();
    }

    /// Replaces whatever is declared as the designator by one entity of
    /// `kind`, without any check.
    pub fn overwrite(&mut self, designator: WithPos<Designator>, kind: NamedEntityKind)
        ensures
            final(self).spec_decls() == old(self).spec_decls().insert(
                designator.item,
                (designator.item, seq![NamedEntity::make(kind, Some(designator.pos))]),
            ),
            final(self).same_except_decls(*old(self)),
            final(self).is_filed(),
    {
        let decl = VisibleDeclaration::new(designator.item, NamedEntity::new(kind, Some(&designator.pos)));
        let mut decls = DeclarationMap::new();
        std::mem::swap(&mut decls, &mut self.decls);
        self.decls = decls.insert(decl);
        proof {
            assert(self.spec_decls() =~= old(self).spec_decls().insert(
                designator.item,
                (designator.item, seq![NamedEntity::make(kind, Some(designator.pos))]),
            ));
        }
        self.show_filed();
    }

    /// Declares an implicit entity of `kind` at `decl_pos`.
    pub fn add_implicit(
        &mut self,
        designator: Designator,
        decl_pos: Option<&SrcPos>,
        kind: NamedEntityKind,
        diagnostics: &mut Vec<Diagnostic>,
    )
        ensures
            final(self).spec_decls() == add_step(
                old(self).spec_kind(),
                lookup_view(extended_decls(*old(self)), designator),
                old(self).spec_decls(),
                designator,
                NamedEntity::make(kind, copied(decl_pos)),
            ).0,
            final(diagnostics)@ == old(diagnostics)@ + add_step(
                old(self).spec_kind(),
                lookup_view(extended_decls(*old(self)), designator),
                old(self).spec_decls(),
                designator,
                NamedEntity::make(kind, copied(decl_pos)),
            ).1,
            final(self).same_except_decls(*old(self)),
            final(self).is_filed(),
    {
        let ent = NamedEntity { decl_pos: copy_pos(decl_pos), kind };
        self.add_named_entity(designator, ent, diagnostics);
        self.show_filed();
    }

    /// Records the body of the protected type `ident`, or reports a
    /// duplicate where this region or the one it extends already has one.
    pub fn add_protected_body(&mut self, ident: Ident, diagnostics: &mut Vec<Diagnostic>)
        ensures
            match protected_body(*old(self), ident.item) {
                Some(prev_pos) => {
                    &&& *final(self) == *old(self)
                    &&& final(diagnostics)@ == old(diagnostics)@.push(
                        duplicate_diagnostic(Designator::Identifier(ident.item), ident.pos, Some(prev_pos)),
                    )
                },
                None => {
                    &&& final(self).spec_protected_bodies() == old(self).spec_protected_bodies().insert(
                        ident.item,
                        ident.pos,
                    )
                    &&& final(self).same_except_protected_bodies(*old(self))
                    &&& final(diagnostics)@ == old(diagnostics)@
                },
            },
            final(self).is_filed(),
    {
        if let Some(prev_pos) = self.get_protected_body(&ident.item) {
            diagnostics.push(duplicate_error(&Designator::Identifier(ident.item), &ident.pos, Some(prev_pos)));
        } else {
            symbol_map_insert(&mut self.protected_bodies, ident.item, ident.pos);
        }
        self.show_filed();
    }
}

proof fn lemma_add_all_push(
    kind: RegionKind,
    ext: Map<Designator, DeclView>,
    decls: Map<Designator, DeclView>,
    steps: Seq<(Designator, NamedEntity)>,
    step: (Designator, NamedEntity),
)
    ensures
        add_all(kind, ext, decls, steps.push(step)) == ({
            let before = add_all(kind, ext, decls, steps);
            let after = add_step(kind, lookup_view(ext, step.0), before.0, step.0, step.1);
            (after.0, before.1 + after.1)
        }),
{
    assert(steps.push(step).drop_last() =~= steps);
}

proof fn lemma_implicit_steps_take(entries: Seq<(Designator, DeclView)>, pos: Option<SrcPos>, i: int)
    requires
        0 <= i < entries.len(),
    ensures
        implicit_steps(entries.take(i + 1), pos) == implicit_steps(entries.take(i), pos)
            + entries[i].1.1.map_values(|e: NamedEntity| (entries[i].1.0, NamedEntity::make(e.spec_kind(), pos))),
{
    assert(entries.take(i + 1).drop_last() =~= entries.take(i));
}

impl<'a> Region<'a> {
    /// Declares, at `decl_pos`, the implicit declarations of the type that
    /// `ent` declares (for example the literals of an enumeration type),
    /// each as `add_implicit` would. The order in which they are taken is
    /// the order in which the type's declarations are walked, left open.
    pub fn add_implicit_declarations(
        &mut self,
        decl_pos: Option<&SrcPos>,
        ent: &NamedEntity,
        diagnostics: &mut Vec<Diagnostic>,
    )
        ensures
            final(self).same_except_decls(*old(self)),
            match implicit_decls(*ent) {
                None => final(self).spec_decls() == old(self).spec_decls() && final(diagnostics)@ == old(
                    diagnostics,
                )@,
                Some(implicit) => exists|entries: Seq<(Designator, DeclView)>|
                    #![trigger implicit_steps(entries, copied(decl_pos))]
                    lists_entries(entries, implicit) && ({
                        let outcome = add_all(
                            old(self).spec_kind(),
                            extended_decls(*old(self)),
                            old(self).spec_decls(),
                            implicit_steps(entries, copied(decl_pos)),
                        );
                        final(self).spec_decls() == outcome.0 && final(diagnostics)@ == old(diagnostics)@
                            + outcome.1
                    }),
            },
            final(self).is_filed(),
    {
        match ent.as_actual().kind() {
            NamedEntityKind::TypeDeclaration(implicit) => {
                if let Some(implicit) = implicit {
                    let ghost kind = self.spec_kind();
                    let ghost ext = extended_decls(*self);
                    let ghost pos = copied(decl_pos);
                    let entries = implicit.decls.entries();
                    let ghost listed = entries@.map_values(|e: (&Designator, &VisibleDeclaration)| (*e.0, e.1@));
                    proof {
                        assert(implicit_steps(listed.take(0), pos) =~= Seq::<(Designator, NamedEntity)>::empty());
                        assert(old(diagnostics)@ + Seq::<Diagnostic>::empty() =~= old(diagnostics)@);
                    }
                    let mut i: usize = 0;
                    while i < entries.len()
                        invariant
                            0 <= i <= entries@.len(),
                            listed == entries@.map_values(|e: (&Designator, &VisibleDeclaration)| (*e.0, e.1@)),
                            kind == self.spec_kind(),
                            ext == extended_decls(*self),
                            pos == copied(decl_pos),
                            self.same_except_decls(*old(self)),
                            ({
                                let outcome = add_all(kind, ext, old(self).spec_decls(), implicit_steps(listed.take(i as int), pos));
                                self.spec_decls() == outcome.0 && diagnostics@ == old(diagnostics)@ + outcome.1
                            }),
                        decreases entries@.len() - i,
                    {
                        let (_, visible) = entries[i];
                        let ghost prefix = implicit_steps(listed.take(i as int), pos);
                        let ghost mapped = visible@.1.map_values(|e: NamedEntity| (visible@.0, NamedEntity::make(e.spec_kind(), pos)));
                        let mut k: usize = 0;
                        proof {
                            assert(prefix + mapped.take(0) =~= prefix);
                        }
                        while k < visible.named_entities.len()
                            invariant
                                0 <= k <= visible@.1.len(),
                                mapped == visible@.1.map_values(|e: NamedEntity| (visible@.0, NamedEntity::make(e.spec_kind(), pos))),
                                kind == self.spec_kind(),
                                ext == extended_decls(*self),
                                pos == copied(decl_pos),
                                self.same_except_decls(*old(self)),
                                ({
                                    let outcome = add_all(kind, ext, old(self).spec_decls(), prefix + mapped.take(k as int));
                                    self.spec_decls() == outcome.0 && diagnostics@ == old(diagnostics)@ + outcome.1
                                }),
                            decreases visible@.1.len() - k,
                        {
                            let named_ent = &visible.named_entities[k];
                            let ghost before_diags = diagnostics@;
                            let ghost before_decls = self.spec_decls();
                            let ghost before_outcome = add_all(kind, ext, old(self).spec_decls(), prefix + mapped.take(k as int));
                            self.add_implicit(visible.designator, decl_pos, copy_kind(named_ent.kind()), diagnostics);
                            proof {
                                let step = mapped[k as int];
                                assert(*named_ent == visible@.1[k as int]);
                                assert(step.0 == visible.designator);
                                assert(step.1 == NamedEntity::make(named_ent.spec_kind(), copied(decl_pos)));
                                let after = add_step(kind, lookup_view(ext, step.0), before_decls, step.0, step.1);
                                assert(self.spec_decls() == after.0);
                                assert(diagnostics@ == before_diags + after.1);
                                assert(diagnostics@ =~= old(diagnostics)@ + (before_outcome.1 + after.1));
                                assert(step == (visible@.0, NamedEntity::make(named_ent.spec_kind(), pos)));
                                assert(prefix + mapped.take(k + 1) =~= (prefix + mapped.take(k as int)).push(step));
                                lemma_add_all_push(kind, ext, old(self).spec_decls(), prefix + mapped.take(k as int), step);
                            }
                            k = k + 1;
                        }
                        proof {
                            assert(mapped.take(k as int) =~= mapped);
                            assert(listed[i as int] == (*entries@[i as int].0, visible@));
                            lemma_implicit_steps_take(listed, pos, i as int);
                        }
                        i = i + 1;
                    }
                    proof {
                        assert(listed.take(i as int) =~= listed);
                    }
                } else {
                }
            },
            _ => {},
        }
        self.show_filed();
    }
}

/// The declaration that a reference to `ent` records: its position, or none
/// for an overloaded entity, where which overload is meant is not known here.
pub open spec fn unique_reference(ent: NamedEntity) -> Option<SrcPos> {
    if ent.spec_kind() is Overloaded {
        None
    } else {
        ent.spec_decl_pos()
    }
}

/// A name in the syntax tree that records the declaration it refers to.
pub trait SetReference {
    /// The declaration position recorded.
    spec fn referred_pos(&self) -> Option<SrcPos>;

    /// Refers to `ent`, unless it is overloaded; then to nothing.
    fn set_unique_reference(&mut self, ent: &NamedEntity)
        ensures
            final(self).referred_pos() == unique_reference(*ent),
    {
        if !ent.is_overloaded() {
            self.set_reference_pos(ent.decl_pos.as_ref());
        } else {
            self.clear_reference();
        }
    }

    /// Refers to the first entity of `visible`, as `set_unique_reference`.
    fn set_reference(&mut self, visible: &VisibleDeclaration)
        ensures
            final(self).referred_pos() == unique_reference(first_of(visible@)),
    {
        self.set_unique_reference(visible.first());
    }

    /// Refers to nothing.
    fn clear_reference(&mut self)
        ensures
            final(self).referred_pos() is None,
    {
        self.set_reference_pos(None);
    }

    /// Records `pos`.
    fn set_reference_pos(&mut self, pos: Option<&SrcPos>)
        ensures
            final(self).referred_pos() == copied(pos),
    ;
}

impl<T> SetReference for WithRef<T> {
    open spec fn referred_pos(&self) -> Option<SrcPos> {
        self.reference
    }

    fn set_reference_pos(&mut self, pos: Option<&SrcPos>)
        ensures
            final(self).item == old(self).item,
    {
        self.reference.set_reference_pos(pos);
    }
}

impl<T: SetReference> SetReference for WithPos<T> {
    open spec fn referred_pos(&self) -> Option<SrcPos> {
        self.item.referred_pos()
    }

    fn set_reference_pos(&mut self, pos: Option<&SrcPos>)
        ensures
            final(self).pos == old(self).pos,
    {
        self.item.set_reference_pos(pos);
    }
}

impl SetReference for Reference {
    open spec fn referred_pos(&self) -> Option<SrcPos> {
        *self
    }

    fn set_reference_pos(&mut self, pos: Option<&SrcPos>)
        ensures
            *final(self) == copied(pos),
    {
        *self = copy_pos(pos);
        proof {
            assert(self.referred_pos() == *self);
        }
    }
}

impl Clone for VisibleDeclaration {
    fn clone(&self) -> (c: Self)
        ensures
            c@ == self@,
    {
        self.copy()
    }
}

impl<'a> Clone for Visible<'a> {
    fn clone(&self) -> (c: Self)
        ensures
            c@ == self@,
    {
        Visible { named_entities: self.named_entities.clone() }
    }
}

impl Clone for Visibility {
    fn clone(&self) -> (c: Self)
        ensures
            c.spec_regions() == self.spec_regions(),
            c.spec_visible() == self.spec_visible(),
    {
        let mut all_in_regions: Vec<Arc<Region<'static>>> = Vec::new();
        let mut i: usize = 0;
        while i < self.all_in_regions.len()
            invariant
                0 <= i <= self.all_in_regions@.len(),
                all_in_regions@ == self.all_in_regions@.take(i as int),
            decreases self.all_in_regions@.len() - i,
        {
            all_in_regions.push(self.all_in_regions[i].clone());
            proof {
                assert(self.all_in_regions@.take(i + 1) =~= self.all_in_regions@.take(i as int).push(
                    self.all_in_regions@[i as int],
                ));
            }
            i = i + 1;
        }
        proof {
            assert(self.all_in_regions@.take(i as int) =~= self.all_in_regions@);
        }
        Visibility { all_in_regions, visible: self.visible.clone() }
    }
}

impl<'a> Clone for Region<'a> {
    fn clone(&self) -> (c: Self)
        ensures
            c.spec_parent() == self.spec_parent(),
            c.spec_extends() == self.spec_extends(),
            c.spec_visibility().spec_regions() == self.spec_visibility().spec_regions(),
            c.spec_visibility().spec_visible() == self.spec_visibility().spec_visible(),
            c.spec_decls() == self.spec_decls(),
            c.spec_protected_bodies() == self.spec_protected_bodies(),
            c.spec_kind() == self.spec_kind(),
    {
        Region {
            parent: self.parent,
            extends: self.extends,
            visibility: self.visibility.clone(),
            decls: self.decls.clone(),
            protected_bodies: self.protected_bodies.clone(),
            kind: self.kind,
        }
    }
}

} // verus!
