//! Properties of the region that span its operations: what a declaration
//! does to later lookups, how overloads and deferred constants combine, and
//! how use clauses make names visible or hide them.
use crate::ast::{Designator, ObjectClass, ObjectDeclaration, SrcPos, Symbol};
use crate::diagnostic::{error_diagnostic, Diagnostic, Message, Severity};
use crate::fnv_maps::lists_entries;
use crate::region::{
    actual, add_step, add_visible, duplicate_diagnostic, duplicates, enclosing_lookup, entities_under,
    error_at, extended_decls, filed, merge_visible, first_duplicate, first_of,  implicit_regions, lists_values,
    lookup_view, lookup_within_outcome, opt_duplicate_diagnostics, opt_full_misplaced, opt_has_duplicate,
    protected_body, record_all, implicit_decls, region_candidates, regions_candidates, unambiguous, visibility_candidates,
    deferred_diagnostic, deferred_diagnostics, deferred_misplaced, deferred_pairs_reported, object_declaration_kind, protected_bodies_reported,
    protected_diagnostic, protected_diagnostics, unique_reference, DeclView, NamedEntity, NamedEntityKind, Region,
    RegionKind, VisibleDeclaration,
};
use std::sync::Arc;
use vstd::prelude::*;

verus! {

/// Declaring `ent` as `d` is accepted: it is no misplaced deferred or full
/// constant, and duplicates nothing declared as `d` in the region (`decls`)
/// or in the region it extends (`ext`).
pub open spec fn accepted(
    kind: RegionKind,
    ext: Option<DeclView>,
    decls: Map<Designator, DeclView>,
    d: Designator,
    ent: NamedEntity,
) -> bool {
    &&& !deferred_misplaced(kind, ent)
    &&& !opt_full_misplaced(kind, ent, ext)
    &&& !opt_full_misplaced(kind, ent, lookup_view(decls, d))
    &&& !opt_has_duplicate(ent, lookup_view(decls, d))
    &&& !opt_has_duplicate(ent, ext)
}

proof fn lemma_duplicate_reported(ent: NamedEntity, prev: Option<DeclView>)
    requires
        opt_has_duplicate(ent, prev),
        ent.spec_decl_pos() is Some,
    ensures
        opt_duplicate_diagnostics(ent, prev).len() == 1,
{
}

/// A declaration is either accepted, and then added with nothing reported,
/// or refused, and then the declarations stay as they were and, where the
/// declaration has a position, something is reported.
pub proof fn law_declaration_added_or_reported(
    kind: RegionKind,
    ext: Option<DeclView>,
    decls: Map<Designator, DeclView>,
    d: Designator,
    ent: NamedEntity,
)
    ensures
        accepted(kind, ext, decls, d, ent) ==> add_step(kind, ext, decls, d, ent) == (
            add_visible(decls, d, ent),
            Seq::<Diagnostic>::empty(),
        ),
        !accepted(kind, ext, decls, d, ent) ==> add_step(kind, ext, decls, d, ent).0 == decls,
        !accepted(kind, ext, decls, d, ent) && ent.spec_decl_pos() is Some ==> add_step(kind, ext, decls, d, ent).1.len()
            > 0,
{
    let prev = lookup_view(decls, d);
    if accepted(kind, ext, decls, d, ent) {
        assert(opt_duplicate_diagnostics(ent, prev) =~= Seq::<Diagnostic>::empty()) by {
            if let Some(p) = prev {
                assert(first_duplicate(ent, p.1) is None);
            }
        }
        assert(opt_duplicate_diagnostics(ent, ext) =~= Seq::<Diagnostic>::empty()) by {
            if let Some(p) = ext {
                assert(first_duplicate(ent, p.1) is None);
            }
        }
        assert(opt_duplicate_diagnostics(ent, prev) + opt_duplicate_diagnostics(ent, ext) =~= Seq::<Diagnostic>::empty());
    } else if ent.spec_decl_pos() is Some && !deferred_misplaced(kind, ent) && !opt_full_misplaced(kind, ent, ext)
        && !opt_full_misplaced(kind, ent, prev) {
        if opt_has_duplicate(ent, prev) {
            lemma_duplicate_reported(ent, prev);
        } else {
            lemma_duplicate_reported(ent, ext);
        }
    }
}

/// What is declared can be looked up: after a declaration is accepted, the
/// region's own declaration of the name ends with the new entity, and a
/// lookup from within the region finds that declaration.
pub proof fn law_declared_entity_is_found<'a>(
    before: Region<'a>,
    after: Region<'a>,
    d: Designator,
    ent: NamedEntity,
    pos: SrcPos,
    res: Result<VisibleDeclaration, Diagnostic>,
)
    requires
        accepted(before.spec_kind(), lookup_view(extended_decls(before), d), before.spec_decls(), d, ent),
        after.spec_decls() == add_step(
            before.spec_kind(),
            lookup_view(extended_decls(before), d),
            before.spec_decls(),
            d,
            ent,
        ).0,
        after.same_except_decls(before),
        lookup_within_outcome(after, pos, d, res),
    ensures
        enclosing_lookup(after, d) == Some(add_visible(before.spec_decls(), d, ent)[d]),
        add_visible(before.spec_decls(), d, ent)[d].1 == entities_under(before.spec_decls(), d).push(ent),
        res matches Ok(x) && x@ == add_visible(before.spec_decls(), d, ent)[d],
{
    law_declaration_added_or_reported(
        before.spec_kind(),
        lookup_view(extended_decls(before), d),
        before.spec_decls(),
        d,
        ent,
    );
    if !before.spec_decls().contains_key(d) {
        assert(seq![ent] =~= Seq::<NamedEntity>::empty().push(ent));
    }
}

/// Overloads accumulate: an overloaded entity is accepted under a name
/// under which only overloaded entities are declared, here and in the
/// extended region.
pub proof fn law_overloads_accumulate(
    kind: RegionKind,
    ext: Option<DeclView>,
    decls: Map<Designator, DeclView>,
    d: Designator,
    ent: NamedEntity,
)
    requires
        ent.spec_kind() is Overloaded,
        decls.contains_key(d) ==> forall|i: int| 0 <= i < decls[d].1.len() ==> (#[trigger] decls[d].1[i]).spec_kind() is Overloaded,
        ext matches Some(e) ==> forall|i: int| 0 <= i < e.1.len() ==> (#[trigger] e.1[i]).spec_kind() is Overloaded,
    ensures
        accepted(kind, ext, decls, d, ent),
{
    if decls.contains_key(d) {
        lemma_no_duplicate_among_overloads(ent, decls[d].1);
    }
    if let Some(e) = ext {
        lemma_no_duplicate_among_overloads(ent, e.1);
    }
}

proof fn lemma_no_duplicate_among_overloads(ent: NamedEntity, ents: Seq<NamedEntity>)
    requires
        ent.spec_kind() is Overloaded,
        forall|i: int| 0 <= i < ents.len() ==> (#[trigger] ents[i]).spec_kind() is Overloaded,
    ensures
        first_duplicate(ent, ents) is None,
    decreases ents.len(),
{
    if ents.len() > 0 {
        assert(ents[0].spec_kind() is Overloaded);
        assert forall|i: int| 0 <= i < ents.drop_first().len() implies (#[trigger] ents.drop_first()[i]).spec_kind() is Overloaded by {
            assert(ents.drop_first()[i] == ents[i + 1]);
        }
        lemma_no_duplicate_among_overloads(ent, ents.drop_first());
    }
}

proof fn lemma_no_duplicate_of_deferred(ent: NamedEntity, ents: Seq<NamedEntity>)
    requires
        ent.spec_kind() is Constant,
        forall|i: int| 0 <= i < ents.len() ==> (#[trigger] ents[i]).spec_kind() is DeferredConstant,
    ensures
        first_duplicate(ent, ents) is None,
    decreases ents.len(),
{
    if ents.len() > 0 {
        assert(ents[0].spec_kind() is DeferredConstant);
        assert forall|i: int| 0 <= i < ents.drop_first().len() implies (#[trigger] ents.drop_first()[i]).spec_kind() is DeferredConstant by {
            assert(ents.drop_first()[i] == ents[i + 1]);
        }
        lemma_no_duplicate_of_deferred(ent, ents.drop_first());
    }
}

/// A deferred constant of a package is completed in its body: a constant
/// of the same name, declared in the package body where nothing else has
/// that name, is accepted, and afterwards the deferred constant no longer
/// counts as lacking its full declaration.
pub proof fn law_deferred_constant_completed_in_body(
    ext: DeclView,
    decls: Map<Designator, DeclView>,
    d: Designator,
    ent: NamedEntity,
)
    requires
        ext.1.len() > 0,
        forall|i: int| 0 <= i < ext.1.len() ==> (#[trigger] ext.1[i]).spec_kind() is DeferredConstant,
        ext.0 == d,
        ent.spec_kind() is Constant,
        !decls.contains_key(d),
    ensures
        accepted(RegionKind::PackageBody, Some(ext), decls, d, ent),
        deferred_diagnostic(ext, add_step(RegionKind::PackageBody, Some(ext), decls, d, ent).0, true)
            == Seq::<Diagnostic>::empty(),
{
    lemma_no_duplicate_of_deferred(ent, ext.1);
    law_declaration_added_or_reported(RegionKind::PackageBody, Some(ext), decls, d, ent);
    assert(ext.1[0].spec_kind() is DeferredConstant);
    let after = add_step(RegionKind::PackageBody, Some(ext), decls, d, ent).0;
    assert(after[d] == (d, seq![ent]));
}

/// Deferred constants belong in package declarations: anywhere else one is
/// reported and not declared.
pub proof fn law_deferred_constant_outside_package_refused(
    kind: RegionKind,
    ext: Option<DeclView>,
    decls: Map<Designator, DeclView>,
    d: Designator,
    ent: NamedEntity,
)
    requires
        kind != RegionKind::PackageDeclaration,
        ent.spec_kind() is DeferredConstant,
    ensures
        add_step(kind, ext, decls, d, ent) == (decls, error_at(ent, Message::DeferredConstantOutsidePackage)),
{
}

/// A second declaration of a name, where the first is neither overloaded
/// nor a deferred constant nor an incomplete type, is a duplicate: it is not declared, and where it
/// has a position it is reported as a duplicate of the first one, unless it
/// is reported as a misplaced constant instead.
pub proof fn law_duplicate_refused(
    kind: RegionKind,
    ext: Option<DeclView>,
    decls: Map<Designator, DeclView>,
    d: Designator,
    ent: NamedEntity,
)
    requires
        decls.contains_key(d),
        decls[d].1.len() > 0,
        !(first_of(decls[d]).spec_kind() is Overloaded),
        !(first_of(decls[d]).spec_kind() is DeferredConstant),
        !(first_of(decls[d]).spec_kind() is IncompleteType),
    ensures
        add_step(kind, ext, decls, d, ent).0 == decls,
        ent.spec_decl_pos() is Some && !deferred_misplaced(kind, ent) && !opt_full_misplaced(kind, ent, ext)
            ==> add_step(kind, ext, decls, d, ent).1[0] == duplicate_diagnostic(
            decls[d].0,
            ent.spec_decl_pos()->0,
            first_of(decls[d]).spec_decl_pos(),
        ),
{
    assert(duplicates(ent, decls[d].1[0]));
    assert(first_duplicate(ent, decls[d].1) == Some(decls[d].1[0]));
    law_declaration_added_or_reported(kind, ext, decls, d, ent);
}

/// What regions declare comes first: a name declared in the region, the
/// region it extends or an enclosing region is found there, whatever use
/// clauses make visible.
pub proof fn law_declarations_come_before_use_clauses<'a>(
    r: Region<'a>,
    d: Designator,
    pos: SrcPos,
    res: Result<VisibleDeclaration, Diagnostic>,
)
    requires
        enclosing_lookup(r, d) is Some,
        lookup_within_outcome(r, pos, d, res),
    ensures
        res matches Ok(x) && Some(x@) == enclosing_lookup(r, d),
{
}

/// A nested region sees what encloses it: where it declares nothing under a
/// name and extends no region, a lookup of the name finds what its parent
/// finds.
pub proof fn law_nested_region_sees_parent<'a>(r: Region<'a>, parent: &'a Region<'a>, d: Designator)
    requires
        r.spec_parent() == Some(parent),
        r.spec_extends() is None,
        !r.spec_decls().contains_key(d),
    ensures
        enclosing_lookup(r, d) == enclosing_lookup(*parent, d),
{
}

/// Once the body of a protected type is recorded, it is found (so a second
/// body of the same type is reported as a duplicate).
pub proof fn law_protected_body_recorded<'a>(before: Region<'a>, after: Region<'a>, name: Symbol, pos: SrcPos)
    requires
        after.spec_protected_bodies() == before.spec_protected_bodies().insert(name, pos),
        after.same_except_protected_bodies(before),
    ensures
        protected_body(after, name) == Some(pos),
{
}

/// An overwritten name is found as exactly the new declaration.
pub proof fn law_overwrite_replaces<'a>(before: Region<'a>, after: Region<'a>, d: Designator, ent: NamedEntity)
    requires
        after.spec_decls() == before.spec_decls().insert(d, (d, seq![ent])),
    ensures
        enclosing_lookup(after, d) == Some((d, seq![ent])),
{
}

proof fn lemma_regions_candidates_append(a: Seq<Arc<Region<'static>>>, b: Seq<Arc<Region<'static>>>, d: Designator)
    ensures
        regions_candidates(a + b, d) == regions_candidates(a, d) + regions_candidates(b, d),
    decreases b.len(),
{
    if b.len() == 0 {
        assert(a + b =~= a);
        assert(regions_candidates(a, d) + regions_candidates(b, d) =~= regions_candidates(a, d));
    } else {
        assert((a + b).drop_last() =~= a + b.drop_last());
        lemma_regions_candidates_append(a, b.drop_last(), d);
        assert(regions_candidates(a + b, d) =~= regions_candidates(a, d) + regions_candidates(b, d));
    }
}

proof fn lemma_single_listing(ents: Seq<NamedEntity>, k: Option<SrcPos>, v: NamedEntity)
    requires
        lists_values(ents, Map::<Option<SrcPos>, NamedEntity>::empty().insert(k, v)),
    ensures
        ents == seq![v],
{
    let m = Map::<Option<SrcPos>, NamedEntity>::empty().insert(k, v);
    let entries = choose|entries: Seq<(Option<SrcPos>, NamedEntity)>|
        lists_entries(entries, m) && ents == entries.map_values(|e: (Option<SrcPos>, NamedEntity)| e.1);
    assert(m.contains_key(k));
    let i = choose|i: int| 0 <= i < entries.len() && entries[i].0 == k;
    assert(entries[i] == entries[i]);
    if entries.len() > 1 {
        let j = if i == 0 { 1int } else { 0int };
        assert(entries[j] == entries[j]);
        assert(entries[i] == entries[i] && entries[j] == entries[j]);
        assert(false);
    }
    assert(ents =~= seq![v]);
}

proof fn lemma_pair_listing(
    ents: Seq<NamedEntity>,
    k1: Option<SrcPos>,
    v1: NamedEntity,
    k2: Option<SrcPos>,
    v2: NamedEntity,
)
    requires
        k1 != k2,
        lists_values(ents, Map::<Option<SrcPos>, NamedEntity>::empty().insert(k1, v1).insert(k2, v2)),
    ensures
        ents.len() == 2,
        forall|i: int| 0 <= i < ents.len() ==> #[trigger] ents[i] == v1 || ents[i] == v2,
        exists|i: int| 0 <= i < ents.len() && ents[i] == v1,
        exists|i: int| 0 <= i < ents.len() && ents[i] == v2,
{
    let m = Map::<Option<SrcPos>, NamedEntity>::empty().insert(k1, v1).insert(k2, v2);
    let entries = choose|entries: Seq<(Option<SrcPos>, NamedEntity)>|
        lists_entries(entries, m) && ents == entries.map_values(|e: (Option<SrcPos>, NamedEntity)| e.1);
    assert(m.contains_key(k1) && m.contains_key(k2));
    let i1 = choose|i: int| 0 <= i < entries.len() && entries[i].0 == k1;
    let i2 = choose|i: int| 0 <= i < entries.len() && entries[i].0 == k2;
    assert(entries[i1] == entries[i1] && entries[i2] == entries[i2]);
    assert(ents[i1] == v1 && ents[i2] == v2);
    if entries.len() > 2 {
        assert(entries[0] == entries[0] && entries[1] == entries[1] && entries[2] == entries[2]);
        assert(false);
    }
    assert forall|i: int| 0 <= i < ents.len() implies #[trigger] ents[i] == v1 || ents[i] == v2 by {
        assert(entries[i] == entries[i]);
    }
}

proof fn lemma_region_candidates_unfold<'a>(r: Region<'a>, d: Designator)
    ensures
        region_candidates(r, d) == visibility_candidates(r.spec_visibility(), d) + match r.spec_extends() {
            Some(e) => region_candidates(*e, d),
            None => Seq::empty(),
        } + match r.spec_parent() {
            Some(p) => region_candidates(*p, d),
            None => Seq::empty(),
        },
{
}

/// What a use clause makes visible can be looked up: where nothing is
/// declared or potentially visible under a name, making an entity (that
/// brings no implicit declarations of that name) potentially visible under
/// it makes a lookup from within the region find exactly that entity.
pub proof fn law_use_clause_makes_visible<'a>(
    before: Region<'a>,
    after: Region<'a>,
    d: Designator,
    ent: NamedEntity,
    pos: SrcPos,
    res: Result<VisibleDeclaration, Diagnostic>,
)
    requires
        after.same_except_visibility(before),
        after.spec_visibility().spec_regions() == before.spec_visibility().spec_regions() + implicit_regions(ent),
        after.spec_visibility().spec_visible() == add_visible(before.spec_visibility().spec_visible(), d, ent),
        enclosing_lookup(before, d) is None,
        region_candidates(before, d) == Seq::<NamedEntity>::empty(),
        regions_candidates(implicit_regions(ent), d) == Seq::<NamedEntity>::empty(),
        lookup_within_outcome(after, pos, d, res),
    ensures
        res matches Ok(x) && x@ == (d, seq![ent]),
{
    assert(enclosing_lookup(after, d) == enclosing_lookup(before, d)) by {
        assert(after.spec_decls() == before.spec_decls());
        assert(extended_decls(after) == extended_decls(before));
    }
    lemma_region_candidates_unfold(before, d);
    lemma_region_candidates_unfold(after, d);
    let old_vis = before.spec_visibility();
    let new_vis = after.spec_visibility();
    lemma_regions_candidates_append(old_vis.spec_regions(), implicit_regions(ent), d);
    assert(visibility_candidates(old_vis, d).len() == 0);
    assert(regions_candidates(old_vis.spec_regions(), d) =~= Seq::<NamedEntity>::empty());
    assert(entities_under(old_vis.spec_visible(), d) =~= Seq::<NamedEntity>::empty());
    assert(entities_under(new_vis.spec_visible(), d) =~= seq![ent]);
    assert(regions_candidates(new_vis.spec_regions(), d) =~= Seq::<NamedEntity>::empty());
    assert(region_candidates(after, d) =~= seq![ent]);
    let empty = Map::<Option<SrcPos>, NamedEntity>::empty();
    assert(seq![ent].drop_last() =~= Seq::<NamedEntity>::empty());
    assert(record_all(empty, Seq::<NamedEntity>::empty()) == empty);
    assert(record_all(empty, seq![ent]) == empty.insert(ent.spec_decl_pos(), ent));
    let ents = choose|ents: Seq<NamedEntity>|
        #![trigger lists_values(ents, record_all(Map::empty(), region_candidates(after, d)))]
        lists_values(ents, record_all(Map::empty(), region_candidates(after, d))) && if ents.len() == 0 {
            res == Err::<VisibleDeclaration, Diagnostic>(error_diagnostic(pos, Message::NoDeclaration(d)))
        } else if unambiguous(ents) {
            res matches Ok(x) && x@ == (d, ents)
        } else {
            res == Err::<VisibleDeclaration, Diagnostic>(error_diagnostic(pos, Message::HiddenByUseClause(d)))
        };
    lemma_single_listing(ents, ent.spec_decl_pos(), ent);
}

/// Conflicting use clauses hide each other: where nothing is declared under
/// a name and exactly two entities from different declarations are
/// potentially visible under it, not both overloaded and neither an alias,
/// a lookup from within the region reports the name as hidden.
pub proof fn law_conflicting_use_clauses_hide<'a>(
    r: Region<'a>,
    d: Designator,
    first: NamedEntity,
    second: NamedEntity,
    pos: SrcPos,
    res: Result<VisibleDeclaration, Diagnostic>,
)
    requires
        enclosing_lookup(r, d) is None,
        region_candidates(r, d) == seq![first, second],
        first.spec_decl_pos() != second.spec_decl_pos(),
        !(first.spec_kind() is Overloaded && second.spec_kind() is Overloaded),
        !(first.spec_kind() is AliasOf),
        !(second.spec_kind() is AliasOf),
        lookup_within_outcome(r, pos, d, res),
    ensures
        res == Err::<VisibleDeclaration, Diagnostic>(error_diagnostic(pos, Message::HiddenByUseClause(d))),
{
    let cands = seq![first, second];
    assert(cands.drop_last() =~= seq![first]);
    assert(seq![first].drop_last() =~= Seq::<NamedEntity>::empty());
    let empty = Map::<Option<SrcPos>, NamedEntity>::empty();
    assert(record_all(empty, Seq::<NamedEntity>::empty()) == empty);
    assert(record_all(empty, seq![first]) == empty.insert(first.spec_decl_pos(), first));
    assert(record_all(empty, cands) == empty.insert(first.spec_decl_pos(), first).insert(second.spec_decl_pos(), second));
    let ents = choose|ents: Seq<NamedEntity>|
        #![trigger lists_values(ents, record_all(Map::empty(), region_candidates(r, d)))]
        lists_values(ents, record_all(Map::empty(), region_candidates(r, d))) && if ents.len() == 0 {
            res == Err::<VisibleDeclaration, Diagnostic>(error_diagnostic(pos, Message::NoDeclaration(d)))
        } else if unambiguous(ents) {
            res matches Ok(x) && x@ == (d, ents)
        } else {
            res == Err::<VisibleDeclaration, Diagnostic>(error_diagnostic(pos, Message::HiddenByUseClause(d)))
        };
    lemma_pair_listing(ents, first.spec_decl_pos(), first, second.spec_decl_pos(), second);
    assert(!unambiguous(ents)) by {
        if first.spec_kind() is Overloaded {
            let i = choose|i: int| 0 <= i < ents.len() && ents[i] == second;
            assert(!(ents[i].spec_kind() is Overloaded));
        } else {
            let i = choose|i: int| 0 <= i < ents.len() && ents[i] == first;
            assert(!(ents[i].spec_kind() is Overloaded));
        }
        assert forall|i: int| 0 <= i < ents.len() implies !((#[trigger] ents[i]).spec_kind() is AliasOf) by {
            assert(ents[i] == first || ents[i] == second);
        }
    }
}

/// The same declaration made visible twice does not conflict with itself:
/// entities are told apart by their declaration position, and the later one
/// stands.
pub proof fn law_same_declaration_visible_twice<'a>(
    r: Region<'a>,
    d: Designator,
    first: NamedEntity,
    second: NamedEntity,
    pos: SrcPos,
    res: Result<VisibleDeclaration, Diagnostic>,
)
    requires
        enclosing_lookup(r, d) is None,
        region_candidates(r, d) == seq![first, second],
        first.spec_decl_pos() == second.spec_decl_pos(),
        lookup_within_outcome(r, pos, d, res),
    ensures
        res matches Ok(x) && x@ == (d, seq![second]),
{
    let cands = seq![first, second];
    assert(cands.drop_last() =~= seq![first]);
    assert(seq![first].drop_last() =~= Seq::<NamedEntity>::empty());
    let empty = Map::<Option<SrcPos>, NamedEntity>::empty();
    assert(record_all(empty, Seq::<NamedEntity>::empty()) == empty);
    assert(record_all(empty, seq![first]) == empty.insert(first.spec_decl_pos(), first));
    assert(record_all(empty, cands) =~= empty.insert(second.spec_decl_pos(), second));
    let ents = choose|ents: Seq<NamedEntity>|
        #![trigger lists_values(ents, record_all(Map::empty(), region_candidates(r, d)))]
        lists_values(ents, record_all(Map::empty(), region_candidates(r, d))) && if ents.len() == 0 {
            res == Err::<VisibleDeclaration, Diagnostic>(error_diagnostic(pos, Message::NoDeclaration(d)))
        } else if unambiguous(ents) {
            res matches Ok(x) && x@ == (d, ents)
        } else {
            res == Err::<VisibleDeclaration, Diagnostic>(error_diagnostic(pos, Message::HiddenByUseClause(d)))
        };
    lemma_single_listing(ents, second.spec_decl_pos(), second);
}

/// Using a type makes its implicit declarations potentially visible: after
/// a type with a region of implicit declarations (such as the literals of
/// an enumeration) is made potentially visible, whatever that region
/// declares under any name is among what is potentially visible under it.
pub proof fn law_using_type_makes_implicit_declarations_visible<'a>(
    before: Region<'a>,
    after: Region<'a>,
    d: Designator,
    ent: NamedEntity,
    implicit: Arc<Region<'static>>,
    name: Designator,
)
    requires
        actual(ent).spec_kind() == NamedEntityKind::TypeDeclaration(Some(implicit)),
        after.same_except_visibility(before),
        after.spec_visibility().spec_regions() == before.spec_visibility().spec_regions() + implicit_regions(ent),
        after.spec_visibility().spec_visible() == add_visible(before.spec_visibility().spec_visible(), d, ent),
    ensures
        exists|pre: Seq<NamedEntity>, post: Seq<NamedEntity>|
            region_candidates(after, name) == pre + entities_under(implicit.spec_decls(), name) + post,
{
    lemma_region_candidates_unfold(after, name);
    let old_regions = before.spec_visibility().spec_regions();
    assert(implicit_regions(ent) == seq![implicit]);
    lemma_regions_candidates_append(old_regions, seq![implicit], name);
    assert(seq![implicit].drop_last() =~= Seq::<Arc<Region<'static>>>::empty());
    assert(seq![implicit].last() == implicit);
    assert(regions_candidates(Seq::<Arc<Region<'static>>>::empty(), name) == Seq::<NamedEntity>::empty());
    assert(regions_candidates(seq![implicit], name) =~= entities_under(implicit.spec_decls(), name));
    let pre = regions_candidates(old_regions, name);
    let post = entities_under(after.spec_visibility().spec_visible(), name) + match after.spec_extends() {
        Some(e) => region_candidates(*e, name),
        None => Seq::empty(),
    } + match after.spec_parent() {
        Some(p) => region_candidates(*p, name),
        None => Seq::empty(),
    };
    assert(region_candidates(after, name) =~= pre + entities_under(implicit.spec_decls(), name) + post);
}

/// A context adds to what is visible: under every name, what the context
/// makes potentially visible by name follows what was already visible, and
/// nothing is lost.
pub proof fn law_context_adds_visible_names(
    before: Map<Designator, DeclView>,
    context: Map<Designator, DeclView>,
    d: Designator,
)
    ensures
        entities_under(merge_visible(before, context), d) == entities_under(before, d) + entities_under(context, d),
{
    if !context.contains_key(d) {
        assert(entities_under(before, d) + entities_under(context, d) =~= entities_under(before, d));
    } else if !before.contains_key(d) {
        assert(entities_under(before, d) + entities_under(context, d) =~= entities_under(context, d));
    }
}

/// No declaration holds an entity that duplicates an earlier one of it.
pub open spec fn free_of_duplicates(decls: Map<Designator, DeclView>) -> bool {
    forall|k: Designator, i: int, j: int|
        #![trigger decls[k].1[i], decls[k].1[j]]
        decls.contains_key(k) && 0 <= i < j < decls[k].1.len() ==> !duplicates(decls[k].1[j], decls[k].1[i])
}

proof fn lemma_first_duplicate_none(ent: NamedEntity, ents: Seq<NamedEntity>)
    requires
        first_duplicate(ent, ents) is None,
    ensures
        forall|i: int| 0 <= i < ents.len() ==> !duplicates(ent, #[trigger] ents[i]),
    decreases ents.len(),
{
    if ents.len() > 0 {
        lemma_first_duplicate_none(ent, ents.drop_first());
        assert forall|i: int| 0 <= i < ents.len() implies !duplicates(ent, #[trigger] ents[i]) by {
            if i > 0 {
                assert(ents[i] == ents.drop_first()[i - 1]);
            }
        }
    }
}

/// Declarations stay free of duplicates: where no declaration holds an
/// entity that duplicates an earlier one, declaring another entity keeps it
/// so (it is added only where it duplicates nothing under its name).
pub proof fn law_declarations_stay_free_of_duplicates(
    kind: RegionKind,
    ext: Option<DeclView>,
    decls: Map<Designator, DeclView>,
    d: Designator,
    ent: NamedEntity,
)
    requires
        free_of_duplicates(decls),
    ensures
        free_of_duplicates(add_step(kind, ext, decls, d, ent).0),
{
    law_declaration_added_or_reported(kind, ext, decls, d, ent);
    if accepted(kind, ext, decls, d, ent) {
        let after = add_visible(decls, d, ent);
        let before_ents = entities_under(decls, d);
        if decls.contains_key(d) {
            lemma_first_duplicate_none(ent, decls[d].1);
        }
        assert forall|k: Designator, i: int, j: int|
            after.contains_key(k) && 0 <= i < j < after[k].1.len() implies !duplicates(
            #[trigger] after[k].1[j],
            #[trigger] after[k].1[i],
        ) by {
            if k == d {
                assert(after[k].1 == before_ents.push(ent));
                if j == before_ents.len() {
                    assert(after[k].1[i] == decls[d].1[i]);
                } else {
                    assert(after[k].1[i] == decls[d].1[i] && after[k].1[j] == decls[d].1[j]);
                }
            } else {
                assert(after[k] == decls[k]);
            }
        }
    }
}

/// An incomplete type is completed by its full declaration: a type
/// declared under the name of an incomplete type (and of nothing else) is
/// accepted and joins it, with nothing reported.
pub proof fn law_incomplete_type_completed(
    kind: RegionKind,
    decls: Map<Designator, DeclView>,
    d: Designator,
    incomplete: NamedEntity,
    ent: NamedEntity,
)
    requires
        decls.contains_key(d),
        decls[d].1 == seq![incomplete],
        incomplete.spec_kind() is IncompleteType,
        ent.spec_kind() is TypeDeclaration,
    ensures
        accepted(kind, None, decls, d, ent),
        add_step(kind, None, decls, d, ent).1 == Seq::<Diagnostic>::empty(),
        add_step(kind, None, decls, d, ent).0[d].1 == seq![incomplete, ent],
{
    assert(!duplicates(ent, incomplete));
    assert(seq![incomplete][0] == incomplete);
    assert(seq![incomplete].drop_first() =~= Seq::<NamedEntity>::empty());
    assert(first_duplicate(ent, Seq::<NamedEntity>::empty()) is None);
    assert(first_duplicate(ent, decls[d].1) is None);
    law_declaration_added_or_reported(kind, None, decls, d, ent);
    assert(seq![incomplete].push(ent) =~= seq![incomplete, ent]);
}

/// A declaration touches only its own name: every other name keeps its
/// declaration, and under its own name either nothing changes or the
/// entity is added after the earlier ones with nothing reported.
pub proof fn law_declaration_touches_only_its_name<'a>(
    before: Region<'a>,
    after: Region<'a>,
    d: Designator,
    ent: NamedEntity,
    reported: Seq<Diagnostic>,
)
    requires
        after.same_except_decls(before),
        (after.spec_decls(), reported) == add_step(
            before.spec_kind(),
            lookup_view(extended_decls(before), d),
            before.spec_decls(),
            d,
            ent,
        ),
    ensures
        after.spec_visibility() == before.spec_visibility(),
        after.spec_protected_bodies() == before.spec_protected_bodies(),
        after.spec_kind() == before.spec_kind(),
        after.spec_parent() == before.spec_parent(),
        after.spec_extends() == before.spec_extends(),
        forall|k: Designator| k != d ==> lookup_view(after.spec_decls(), k) == lookup_view(before.spec_decls(), k),
        after.spec_decls() == before.spec_decls() || (after.spec_decls().contains_key(d) && after.spec_decls()[d].1
            == entities_under(before.spec_decls(), d).push(ent) && reported == Seq::<Diagnostic>::empty()),
{
    law_declaration_added_or_reported(
        before.spec_kind(),
        lookup_view(extended_decls(before), d),
        before.spec_decls(),
        d,
        ent,
    );
}

/// An alias brings the implicit declarations of what it stands for: adding
/// or making visible the implicit declarations of an alias is bound by the
/// same declarations as for the entity itself.
pub proof fn law_alias_brings_same_implicit_declarations(ent: NamedEntity, pos: Option<SrcPos>)
    ensures
        implicit_decls(NamedEntity::make(NamedEntityKind::AliasOf(Box::new(ent)), pos)) == implicit_decls(ent),
        implicit_regions(NamedEntity::make(NamedEntityKind::AliasOf(Box::new(ent)), pos)) == implicit_regions(ent),
{
    NamedEntity::lemma_make(NamedEntityKind::AliasOf(Box::new(ent)), pos);
}

proof fn lemma_record_repeated(e: NamedEntity, k: nat)
    requires
        k >= 1,
    ensures
        record_all(Map::<Option<SrcPos>, NamedEntity>::empty(), Seq::new(k, |i: int| e))
            == Map::<Option<SrcPos>, NamedEntity>::empty().insert(e.spec_decl_pos(), e),
    decreases k,
{
    let s = Seq::new(k, |i: int| e);
    if k == 1 {
        assert(s.drop_last() =~= Seq::<NamedEntity>::empty());
        assert(record_all(Map::<Option<SrcPos>, NamedEntity>::empty(), Seq::<NamedEntity>::empty())
            == Map::<Option<SrcPos>, NamedEntity>::empty());
    } else {
        assert(s.drop_last() =~= Seq::new((k - 1) as nat, |i: int| e));
        lemma_record_repeated(e, (k - 1) as nat);
        let one = Map::<Option<SrcPos>, NamedEntity>::empty().insert(e.spec_decl_pos(), e);
        assert(one.insert(e.spec_decl_pos(), e) =~= one);
    }
}

/// Making the same entity visible again never hides it: where nothing is
/// declared under a name and what is potentially visible under it is one
/// entity, any number of times over, a lookup from within the region finds
/// exactly that entity.
pub proof fn law_same_entity_visible_repeatedly<'a>(
    r: Region<'a>,
    d: Designator,
    e: NamedEntity,
    times: nat,
    pos: SrcPos,
    res: Result<VisibleDeclaration, Diagnostic>,
)
    requires
        times >= 1,
        enclosing_lookup(r, d) is None,
        region_candidates(r, d) == Seq::new(times, |i: int| e),
        lookup_within_outcome(r, pos, d, res),
    ensures
        res matches Ok(x) && x@ == (d, seq![e]),
{
    lemma_record_repeated(e, times);
    let ents = choose|ents: Seq<NamedEntity>|
        #![trigger lists_values(ents, record_all(Map::empty(), region_candidates(r, d)))]
        lists_values(ents, record_all(Map::empty(), region_candidates(r, d))) && if ents.len() == 0 {
            res == Err::<VisibleDeclaration, Diagnostic>(error_diagnostic(pos, Message::NoDeclaration(d)))
        } else if unambiguous(ents) {
            res matches Ok(x) && x@ == (d, ents)
        } else {
            res == Err::<VisibleDeclaration, Diagnostic>(error_diagnostic(pos, Message::HiddenByUseClause(d)))
        };
    lemma_single_listing(ents, e.spec_decl_pos(), e);
}

/// Making an entity visible by name appends it under that name: under a
/// name where nothing was visible by name, after `times` calls with the
/// same entity what is visible by that name is the entity, `times` over.
pub proof fn law_repeated_use_clause_candidates(vis: Map<Designator, DeclView>, d: Designator, e: NamedEntity, times: nat)
    requires
        times >= 1,
        !vis.contains_key(d),
    ensures
        entities_under(repeat_visible(vis, d, e, times), d) == Seq::new(times, |i: int| e),
    decreases times,
{
    if times == 1 {
        assert(repeat_visible(vis, d, e, 0) == vis);
        assert(entities_under(repeat_visible(vis, d, e, 1), d) =~= Seq::new(1, |i: int| e));
    } else {
        law_repeated_use_clause_candidates(vis, d, e, (times - 1) as nat);
        assert(entities_under(repeat_visible(vis, d, e, times), d) =~= Seq::new(times, |i: int| e));
    }
}

/// `vis` after `e` is made visible under `d`, `times` times.
pub open spec fn repeat_visible(vis: Map<Designator, DeclView>, d: Designator, e: NamedEntity, times: nat) -> Map<
    Designator,
    DeclView,
>
    decreases times,
{
    if times == 0 {
        vis
    } else {
        add_visible(repeat_visible(vis, d, e, (times - 1) as nat), d, e)
    }
}

/// Only overloaded entities share a name: declaring an entity that is not
/// overloaded under a name whose first entity is overloaded (a subprogram or
/// an enumeration literal) is a duplicate. It is not declared, and where it
/// has a position a duplicate declaration is reported at it, related to the
/// overloaded entity, unless it is reported as a misplaced constant instead.
pub proof fn law_overloaded_name_refuses_other_entities(
    kind: RegionKind,
    ext: Option<DeclView>,
    decls: Map<Designator, DeclView>,
    d: Designator,
    ent: NamedEntity,
)
    requires
        filed(decls),
        decls.contains_key(d),
        first_of(decls[d]).spec_kind() is Overloaded,
        !(ent.spec_kind() is Overloaded),
    ensures
        add_step(kind, ext, decls, d, ent).0 == decls,
        ent.spec_decl_pos() is Some && !(kind != RegionKind::PackageDeclaration && ent.spec_kind() is DeferredConstant)
            && !opt_full_misplaced(kind, ent, ext) ==> add_step(kind, ext, decls, d, ent).1.len() > 0 && add_step(
            kind,
            ext,
            decls,
            d,
            ent,
        ).1[0] == (Diagnostic {
            pos: ent.spec_decl_pos()->0,
            message: Message::DuplicateDeclaration(d),
            severity: Severity::Error,
            related: first_of(decls[d]).spec_decl_pos(),
        }),
        ext is None && ent.spec_decl_pos() is Some && !(kind != RegionKind::PackageDeclaration
            && ent.spec_kind() is DeferredConstant) ==> add_step(kind, ext, decls, d, ent).1 == seq![
            (Diagnostic {
                pos: ent.spec_decl_pos()->0,
                message: Message::DuplicateDeclaration(d),
                severity: Severity::Error,
                related: first_of(decls[d]).spec_decl_pos(),
            }),
        ],
{
    assert(decls[d].1[0] == first_of(decls[d]));
    assert(duplicates(ent, decls[d].1[0]));
    assert(first_duplicate(ent, decls[d].1) == Some(decls[d].1[0]));
    assert(!opt_full_misplaced(kind, ent, lookup_view(decls, d)));
}

/// A region that extends another (a package body its package) sees what
/// that one declares: where it declares nothing under a name that the
/// extended region declares, a lookup from within it finds the extended
/// region's declaration, whatever its enclosing regions declare.
pub proof fn law_extended_region_searched_before_parent<'a>(
    r: Region<'a>,
    e: &'a Region<'a>,
    d: Designator,
    pos: SrcPos,
    res: Result<VisibleDeclaration, Diagnostic>,
)
    requires
        r.spec_extends() == Some(e),
        !r.spec_decls().contains_key(d),
        e.spec_decls().contains_key(d),
        lookup_within_outcome(r, pos, d, res),
    ensures
        enclosing_lookup(r, d) == Some(e.spec_decls()[d]),
        res matches Ok(x) && x@ == e.spec_decls()[d],
{
}

proof fn lemma_protected_diagnostic_listed<'a>(r: Region<'a>, es: Seq<(Designator, DeclView)>, j: int, x: Diagnostic)
    requires
        0 <= j < es.len(),
        protected_diagnostic(r, es[j].1) == seq![x],
    ensures
        protected_diagnostics(r, es).contains(x),
    decreases es.len(),
{
    let prefix = protected_diagnostics(r, es.drop_last());
    let last = protected_diagnostic(r, es.last().1);
    assert(protected_diagnostics(r, es) == prefix + last);
    if j == es.len() - 1 {
        assert((prefix + last)[prefix.len() as int] == x);
    } else {
        assert(es.drop_last()[j] == es[j]);
        lemma_protected_diagnostic_listed(r, es.drop_last(), j, x);
        let i = choose|i: int| 0 <= i < prefix.len() && prefix[i] == x;
        assert((prefix + last)[i] == x);
    }
}

/// Closing a region checks the protected types of the region it extends
/// too: where the extended region (a package) declares a protected type
/// and neither region records its body, closing reports the missing body
/// at the protected type's declaration.
pub proof fn law_close_reports_protected_type_of_extended_region<'a>(
    r: Region<'a>,
    e: &'a Region<'a>,
    name: Symbol,
    pos: SrcPos,
    reported: Seq<Diagnostic>,
)
    requires
        r.spec_extends() == Some(e),
        e.spec_extends() is None,
        e.is_filed(),
        e.spec_decls().contains_key(Designator::Identifier(name)),
        first_of(e.spec_decls()[Designator::Identifier(name)]).spec_kind() is ProtectedType,
        first_of(e.spec_decls()[Designator::Identifier(name)]).spec_decl_pos() == Some(pos),
        !r.spec_protected_bodies().contains_key(name),
        !e.spec_protected_bodies().contains_key(name),
        protected_bodies_reported(r, reported),
    ensures
        reported.contains(
            (Diagnostic {
                pos,
                message: Message::MissingProtectedBody(Designator::Identifier(name)),
                severity: Severity::Error,
                related: None,
            }),
        ),
{
    let p = Designator::Identifier(name);
    let x = Diagnostic {
        pos,
        message: Message::MissingProtectedBody(p),
        severity: Severity::Error,
        related: None,
    };
    let (own, ext): (Seq<(Designator, DeclView)>, Seq<(Designator, DeclView)>) = choose|
        own: Seq<(Designator, DeclView)>,
        ext: Seq<(Designator, DeclView)>,
    |
        lists_entries(own, r.spec_decls()) && lists_entries(ext, extended_decls(r)) && reported
            == protected_diagnostics(r, own) + protected_diagnostics(r, ext);
    assert(extended_decls(r) == e.spec_decls());
    assert(e.spec_decls().contains_key(p));
    let j = choose|j: int| 0 <= j < ext.len() && ext[j].0 == p;
    assert(ext[j].1 == e.spec_decls()[p]);
    assert(e.spec_decls()[p].0 == p);
    assert(protected_body(*e, name) is None);
    assert(protected_body(r, name) is None);
    assert(protected_diagnostic(r, ext[j].1) == seq![x]);
    lemma_protected_diagnostic_listed(r, ext, j, x);
    let own_part = protected_diagnostics(r, own);
    let ext_part = protected_diagnostics(r, ext);
    let i = choose|i: int| 0 <= i < ext_part.len() && ext_part[i] == x;
    assert((own_part + ext_part)[own_part.len() + i] == x);
}

/// Only constants are constants: an object declaration declares a constant
/// or a deferred constant only where its class is `constant` (deferred
/// exactly where it has no initial value); a signal, a variable or a shared
/// variable is some other object.
pub proof fn law_only_constant_objects_are_constants(decl: ObjectDeclaration)
    ensures
        object_declaration_kind(decl) is Constant <==> (decl.class == ObjectClass::Constant
            && decl.expression is Some),
        object_declaration_kind(decl) is DeferredConstant <==> (decl.class == ObjectClass::Constant
            && decl.expression is None),
        decl.class != ObjectClass::Constant ==> object_declaration_kind(decl) is Other,
{
}

/// A reference to an entity that is not overloaded records where that
/// entity is declared, whatever its kind; a reference to an overloaded one
/// records nothing, since which overload is meant is not known.
pub proof fn law_unique_reference_records_declaration(ent: NamedEntity)
    ensures
        !(ent.spec_kind() is Overloaded) ==> unique_reference(ent) == ent.spec_decl_pos(),
        ent.spec_kind() is Overloaded ==> unique_reference(ent) is None,
{
}

/// Only an entity's own companion shares its name: unless both are
/// overloaded, or the first is a deferred constant and the new one a
/// constant, or the first is an incomplete type and the new one a type,
/// declaring an entity under a name that is already declared is a
/// duplicate. It is not declared, and where it has a position a duplicate
/// declaration is reported at it, related to the first entity, unless it is
/// reported as a misplaced deferred constant instead.
pub proof fn law_only_companions_share_a_name(
    kind: RegionKind,
    ext: Option<DeclView>,
    decls: Map<Designator, DeclView>,
    d: Designator,
    ent: NamedEntity,
)
    requires
        filed(decls),
        decls.contains_key(d),
        !(ent.spec_kind() is Overloaded && first_of(decls[d]).spec_kind() is Overloaded),
        !(first_of(decls[d]).spec_kind() is DeferredConstant && ent.spec_kind() is Constant),
        !(first_of(decls[d]).spec_kind() is IncompleteType && ent.spec_kind() is TypeDeclaration),
    ensures
        add_step(kind, ext, decls, d, ent).0 == decls,
        ent.spec_decl_pos() is Some && !(kind != RegionKind::PackageDeclaration && ent.spec_kind() is DeferredConstant)
            && !opt_full_misplaced(kind, ent, ext) ==> add_step(kind, ext, decls, d, ent).1.len() > 0 && add_step(
            kind,
            ext,
            decls,
            d,
            ent,
        ).1[0] == (Diagnostic {
            pos: ent.spec_decl_pos()->0,
            message: Message::DuplicateDeclaration(d),
            severity: Severity::Error,
            related: first_of(decls[d]).spec_decl_pos(),
        }),
{
    assert(decls[d].1[0] == first_of(decls[d]));
    assert(duplicates(ent, decls[d].1[0]));
    assert(first_duplicate(ent, decls[d].1) == Some(decls[d].1[0]));
    assert(!opt_full_misplaced(kind, ent, lookup_view(decls, d)));
}

/// A region's own declaration of a name comes before anything else: a
/// lookup from within it finds that declaration.
pub proof fn law_own_declaration_found_first<'a>(
    r: Region<'a>,
    d: Designator,
    pos: SrcPos,
    res: Result<VisibleDeclaration, Diagnostic>,
)
    requires
        r.spec_decls().contains_key(d),
        lookup_within_outcome(r, pos, d, res),
    ensures
        enclosing_lookup(r, d) == Some(r.spec_decls()[d]),
        res matches Ok(x) && x@ == r.spec_decls()[d],
{
}

/// Where neither a region nor the region it extends declares a name, a
/// lookup from within it finds what its parent finds.
pub proof fn law_undeclared_name_found_in_parent<'a>(r: Region<'a>, parent: &'a Region<'a>, d: Designator)
    requires
        r.spec_parent() == Some(parent),
        !r.spec_decls().contains_key(d),
        r.spec_extends() matches Some(e) ==> !e.spec_decls().contains_key(d),
    ensures
        enclosing_lookup(r, d) == enclosing_lookup(*parent, d),
{
}

/// Closing a region checks its own protected types: where it declares a
/// protected type, extends no region and records no body for it, closing
/// reports the missing body at the protected type's declaration.
pub proof fn law_close_reports_own_protected_type<'a>(
    r: Region<'a>,
    name: Symbol,
    pos: SrcPos,
    reported: Seq<Diagnostic>,
)
    requires
        r.spec_extends() is None,
        r.is_filed(),
        r.spec_decls().contains_key(Designator::Identifier(name)),
        first_of(r.spec_decls()[Designator::Identifier(name)]).spec_kind() is ProtectedType,
        first_of(r.spec_decls()[Designator::Identifier(name)]).spec_decl_pos() == Some(pos),
        !r.spec_protected_bodies().contains_key(name),
        protected_bodies_reported(r, reported),
    ensures
        reported.contains(
            (Diagnostic {
                pos,
                message: Message::MissingProtectedBody(Designator::Identifier(name)),
                severity: Severity::Error,
                related: None,
            }),
        ),
{
    let p = Designator::Identifier(name);
    let x = Diagnostic {
        pos,
        message: Message::MissingProtectedBody(p),
        severity: Severity::Error,
        related: None,
    };
    let (own, ext): (Seq<(Designator, DeclView)>, Seq<(Designator, DeclView)>) = choose|
        own: Seq<(Designator, DeclView)>,
        ext: Seq<(Designator, DeclView)>,
    |
        lists_entries(own, r.spec_decls()) && lists_entries(ext, extended_decls(r)) && reported
            == protected_diagnostics(r, own) + protected_diagnostics(r, ext);
    assert(r.spec_decls().contains_key(p));
    let j = choose|j: int| 0 <= j < own.len() && own[j].0 == p;
    assert(own[j].1 == r.spec_decls()[p]);
    assert(r.spec_decls()[p].0 == p);
    assert(protected_body(r, name) is None);
    assert(protected_diagnostic(r, own[j].1) == seq![x]);
    lemma_protected_diagnostic_listed(r, own, j, x);
    let own_part = protected_diagnostics(r, own);
    let i = choose|i: int| 0 <= i < own_part.len() && own_part[i] == x;
    assert((own_part + protected_diagnostics(r, ext))[i] == x);
}

proof fn lemma_deferred_diagnostic_listed(
    es: Seq<(Designator, DeclView)>,
    own: Map<Designator, DeclView>,
    in_body: bool,
    j: int,
    x: Diagnostic,
)
    requires
        0 <= j < es.len(),
        deferred_diagnostic(es[j].1, own, in_body) == seq![x],
    ensures
        deferred_diagnostics(es, own, in_body).contains(x),
    decreases es.len(),
{
    let prefix = deferred_diagnostics(es.drop_last(), own, in_body);
    let last = deferred_diagnostic(es.last().1, own, in_body);
    assert(deferred_diagnostics(es, own, in_body) == prefix + last);
    if j == es.len() - 1 {
        assert((prefix + last)[prefix.len() as int] == x);
    } else {
        assert(es.drop_last()[j] == es[j]);
        lemma_deferred_diagnostic_listed(es.drop_last(), own, in_body, j, x);
        let i = choose|i: int| 0 <= i < prefix.len() && prefix[i] == x;
        assert((prefix + last)[i] == x);
    }
}

/// A package without a body cannot complete its deferred constants:
/// closing a package declaration reports each deferred constant it declares
/// as lacking its full declaration, at the deferred constant.
pub proof fn law_close_reports_deferred_constant_of_package<'a>(
    r: Region<'a>,
    d: Designator,
    pos: SrcPos,
    reported: Seq<Diagnostic>,
)
    requires
        r.spec_kind() == RegionKind::PackageDeclaration,
        r.is_filed(),
        r.spec_decls().contains_key(d),
        first_of(r.spec_decls()[d]).spec_kind() is DeferredConstant,
        first_of(r.spec_decls()[d]).spec_decl_pos() == Some(pos),
        deferred_pairs_reported(r, reported),
    ensures
        reported.contains(
            (Diagnostic {
                pos,
                message: Message::DeferredConstantWithoutFullDeclaration(d),
                severity: Severity::Error,
                related: None,
            }),
        ),
{
    let x = Diagnostic {
        pos,
        message: Message::DeferredConstantWithoutFullDeclaration(d),
        severity: Severity::Error,
        related: None,
    };
    let es = choose|es: Seq<(Designator, DeclView)>|
        lists_entries(es, r.spec_decls()) && reported == deferred_diagnostics(es, r.spec_decls(), false);
    assert(r.spec_decls().contains_key(d));
    let j = choose|j: int| 0 <= j < es.len() && es[j].0 == d;
    assert(es[j].1 == r.spec_decls()[d]);
    assert(r.spec_decls()[d].0 == d);
    assert(deferred_diagnostic(es[j].1, r.spec_decls(), false) == seq![x]);
    lemma_deferred_diagnostic_listed(es, r.spec_decls(), false, j, x);
}

/// A package body must complete the deferred constants of its package:
/// closing it reports each deferred constant of the package that the body
/// does not declare again as a constant, at the deferred constant.
pub proof fn law_close_reports_uncompleted_deferred_constant<'a>(
    r: Region<'a>,
    e: &'a Region<'a>,
    d: Designator,
    pos: SrcPos,
    reported: Seq<Diagnostic>,
)
    requires
        r.spec_kind() == RegionKind::PackageBody,
        r.spec_extends() == Some(e),
        e.is_filed(),
        e.spec_decls().contains_key(d),
        first_of(e.spec_decls()[d]).spec_kind() is DeferredConstant,
        first_of(e.spec_decls()[d]).spec_decl_pos() == Some(pos),
        r.spec_decls().contains_key(d) ==> !(first_of(r.spec_decls()[d]).spec_kind() is Constant),
        deferred_pairs_reported(r, reported),
    ensures
        reported.contains(
            (Diagnostic {
                pos,
                message: Message::DeferredConstantWithoutFullDeclaration(d),
                severity: Severity::Error,
                related: None,
            }),
        ),
{
    let x = Diagnostic {
        pos,
        message: Message::DeferredConstantWithoutFullDeclaration(d),
        severity: Severity::Error,
        related: None,
    };
    let es = choose|es: Seq<(Designator, DeclView)>|
        lists_entries(es, extended_decls(r)) && reported == deferred_diagnostics(es, r.spec_decls(), true);
    assert(extended_decls(r) == e.spec_decls());
    assert(e.spec_decls().contains_key(d));
    let j = choose|j: int| 0 <= j < es.len() && es[j].0 == d;
    assert(es[j].1 == e.spec_decls()[d]);
    assert(e.spec_decls()[d].0 == d);
    assert(deferred_diagnostic(es[j].1, r.spec_decls(), true) == seq![x]);
    lemma_deferred_diagnostic_listed(es, r.spec_decls(), true, j, x);
}

/// A name that nothing declares and nothing makes potentially visible is
/// reported at the lookup as having no declaration.
pub proof fn law_unknown_name_reported<'a>(
    r: Region<'a>,
    d: Designator,
    pos: SrcPos,
    res: Result<VisibleDeclaration, Diagnostic>,
)
    requires
        enclosing_lookup(r, d) is None,
        region_candidates(r, d).len() == 0,
        lookup_within_outcome(r, pos, d, res),
    ensures
        res == Err::<VisibleDeclaration, Diagnostic>(
            (Diagnostic { pos, message: Message::NoDeclaration(d), severity: Severity::Error, related: None }),
        ),
{
    let m = record_all(Map::empty(), region_candidates(r, d));
    assert(m =~= Map::<Option<SrcPos>, NamedEntity>::empty());
    assert forall|ents: Seq<NamedEntity>| lists_values(ents, m) implies ents.len() == 0 by {
        let entries = choose|entries: Seq<(Option<SrcPos>, NamedEntity)>|
            lists_entries(entries, m) && ents == entries.map_values(|e: (Option<SrcPos>, NamedEntity)| e.1);
        if entries.len() > 0 {
            assert(m.contains_key(entries[0].0));
        }
    }
}

/// The body of a protected type recorded in the extended region (the
/// package body, for a type of its package) is found from the extending
/// region, where that one records none itself.
pub proof fn law_protected_body_found_in_extended_region<'a>(r: Region<'a>, e: &'a Region<'a>, name: Symbol)
    requires
        r.spec_extends() == Some(e),
        !r.spec_protected_bodies().contains_key(name),
        e.spec_protected_bodies().contains_key(name),
    ensures
        protected_body(r, name) == Some(e.spec_protected_bodies()[name]),
{
    assert(protected_body(*e, name) == Some(e.spec_protected_bodies()[name]));
}

} // verus!
