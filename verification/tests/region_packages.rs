use vhdl_region::ast::{
    Designator, Ident, ObjectClass, ObjectDeclaration, Position, Range, Source, SrcPos, Symbol, WithPos, WithRef,
};
use vhdl_region::diagnostic::{Diagnostic, Message, Severity};
use vhdl_region::region::{duplicate_error, NamedEntity, NamedEntityKind, Region, SetReference, VisibleDeclaration};
use std::sync::Arc;

fn pos(line: u64) -> SrcPos {
    SrcPos {
        source: Source { id: 2 },
        range: Range {
            start: Position { line, character: 4 },
            end: Position { line, character: 9 },
        },
    }
}

fn ident(id: u64) -> Designator {
    Designator::Identifier(Symbol::new(id))
}

fn error(line: u64, message: Message) -> Diagnostic {
    Diagnostic { pos: pos(line), message, severity: Severity::Error, related: None }
}

fn declare(region: &mut Region<'_>, id: u64, line: u64, kind: NamedEntityKind, diagnostics: &mut Vec<Diagnostic>) {
    region.add(WithPos::new(ident(id), pos(line)), kind, diagnostics);
}

#[test]
fn kind_of_object_declaration() {
    let name: Ident = WithPos::new(Symbol::new(1), pos(1));
    let deferred = ObjectDeclaration { ident: name, class: ObjectClass::Constant, expression: None };
    let full = ObjectDeclaration { ident: name, class: ObjectClass::Constant, expression: Some(pos(2)) };
    let signal = ObjectDeclaration { ident: name, class: ObjectClass::Signal, expression: Some(pos(2)) };
    let variable = ObjectDeclaration { ident: name, class: ObjectClass::Variable, expression: None };
    assert!(matches!(NamedEntityKind::from_object_declaration(&deferred), NamedEntityKind::DeferredConstant));
    assert!(matches!(NamedEntityKind::from_object_declaration(&full), NamedEntityKind::Constant));
    assert!(matches!(NamedEntityKind::from_object_declaration(&signal), NamedEntityKind::Other));
    assert!(matches!(NamedEntityKind::from_object_declaration(&variable), NamedEntityKind::Other));
}

#[test]
fn deferred_constant_outside_package_is_refused() {
    let mut region = Region::default();
    let mut diagnostics = Vec::new();
    declare(&mut region, 1, 3, NamedEntityKind::DeferredConstant, &mut diagnostics);
    assert_eq!(diagnostics, vec![error(3, Message::DeferredConstantOutsidePackage)]);
    assert!(region.lookup_immediate(&ident(1)).is_none());
}

#[test]
fn deferred_constant_without_body_is_reported_on_close() {
    let mut package = Region::default().in_package_declaration();
    let mut diagnostics = Vec::new();
    declare(&mut package, 1, 3, NamedEntityKind::DeferredConstant, &mut diagnostics);
    assert!(diagnostics.is_empty());
    package.close(&mut diagnostics);
    assert_eq!(diagnostics, vec![error(3, Message::DeferredConstantWithoutFullDeclaration(ident(1)))]);
}

#[test]
fn full_constant_in_package_declaration_is_refused() {
    let mut package = Region::default().in_package_declaration();
    let mut diagnostics = Vec::new();
    declare(&mut package, 1, 3, NamedEntityKind::DeferredConstant, &mut diagnostics);
    declare(&mut package, 1, 4, NamedEntityKind::Constant, &mut diagnostics);
    assert_eq!(diagnostics, vec![error(4, Message::FullDeclarationOutsidePackageBody)]);
    assert_eq!(package.lookup_immediate(&ident(1)).unwrap().named_entities().len(), 1);
}

#[test]
fn deferred_constant_completed_in_body() {
    let mut package = Region::default().in_package_declaration();
    let mut diagnostics = Vec::new();
    declare(&mut package, 1, 3, NamedEntityKind::DeferredConstant, &mut diagnostics);
    declare(&mut package, 2, 4, NamedEntityKind::DeferredConstant, &mut diagnostics);
    let mut body = Region::extend(&package, None);
    declare(&mut body, 1, 10, NamedEntityKind::Constant, &mut diagnostics);
    assert!(diagnostics.is_empty());
    // The body sees the declarations of the package
    let found = body.lookup_immediate(&ident(2)).unwrap();
    assert!(matches!(found.first_kind(), NamedEntityKind::DeferredConstant));
    body.close(&mut diagnostics);
    assert_eq!(diagnostics, vec![error(4, Message::DeferredConstantWithoutFullDeclaration(ident(2)))]);
}

#[test]
fn redeclaration_of_package_name_in_body_is_duplicate() {
    let mut package = Region::default().in_package_declaration();
    let mut diagnostics = Vec::new();
    declare(&mut package, 1, 3, NamedEntityKind::Other, &mut diagnostics);
    let mut body = Region::extend(&package, None);
    declare(&mut body, 1, 10, NamedEntityKind::Other, &mut diagnostics);
    assert_eq!(
        diagnostics,
        vec![Diagnostic {
            pos: pos(10),
            message: Message::DuplicateDeclaration(ident(1)),
            severity: Severity::Error,
            related: Some(pos(3)),
        }]
    );
    assert!(body.lookup_selected(&ident(1)).is_some());
}

#[test]
fn deferred_constant_in_body_is_refused() {
    let package = Region::default().in_package_declaration();
    let mut body = Region::extend(&package, None);
    let mut diagnostics = Vec::new();
    declare(&mut body, 5, 11, NamedEntityKind::DeferredConstant, &mut diagnostics);
    assert_eq!(diagnostics, vec![error(11, Message::DeferredConstantOutsidePackage)]);
}

#[test]
fn extending_other_region_gives_other_kind() {
    let region = Region::default();
    let mut extension = Region::extend(&region, Some(&region));
    let mut diagnostics = Vec::new();
    // Not a package body: a full constant may not complete a deferred one
    declare(&mut extension, 5, 11, NamedEntityKind::Constant, &mut diagnostics);
    assert!(diagnostics.is_empty());
    extension.close(&mut diagnostics);
    assert!(diagnostics.is_empty());
}

#[test]
fn protected_type_without_body_is_reported() {
    let mut region = Region::default();
    let mut diagnostics = Vec::new();
    let body_region = Arc::new(Region::default());
    declare(&mut region, 6, 2, NamedEntityKind::ProtectedType(body_region.clone()), &mut diagnostics);
    declare(&mut region, 7, 3, NamedEntityKind::ProtectedType(body_region), &mut diagnostics);
    region.add_protected_body(WithPos::new(Symbol::new(7), pos(20)), &mut diagnostics);
    assert!(diagnostics.is_empty());
    region.close(&mut diagnostics);
    assert_eq!(diagnostics, vec![error(2, Message::MissingProtectedBody(ident(6)))]);
}

#[test]
fn protected_body_in_package_body_completes_package() {
    let mut package = Region::default().in_package_declaration();
    let mut diagnostics = Vec::new();
    declare(&mut package, 6, 2, NamedEntityKind::ProtectedType(Arc::new(Region::default())), &mut diagnostics);
    let mut body = Region::extend(&package, None);
    body.add_protected_body(WithPos::new(Symbol::new(6), pos(20)), &mut diagnostics);
    body.close(&mut diagnostics);
    assert!(diagnostics.is_empty());
}

#[test]
fn duplicate_protected_body_is_reported() {
    let mut region = Region::default();
    let mut diagnostics = Vec::new();
    region.add_protected_body(WithPos::new(Symbol::new(6), pos(20)), &mut diagnostics);
    region.add_protected_body(WithPos::new(Symbol::new(6), pos(30)), &mut diagnostics);
    assert_eq!(
        diagnostics,
        vec![Diagnostic {
            pos: pos(30),
            message: Message::DuplicateDeclaration(ident(6)),
            severity: Severity::Error,
            related: Some(pos(20)),
        }]
    );
}

#[test]
fn duplicate_error_relates_previous_declaration() {
    let name = ident(3);
    assert_eq!(
        duplicate_error(&name, &pos(5), Some(&pos(1))),
        Diagnostic { pos: pos(5), message: Message::DuplicateDeclaration(name), severity: Severity::Error, related: Some(pos(1)) }
    );
    assert_eq!(duplicate_error(&name, &pos(5), None), error(5, Message::DuplicateDeclaration(name)));
}

#[test]
fn references_are_set_for_unique_entities() {
    let mut name: WithPos<WithRef<Symbol>> = WithPos::new(WithRef::new(Symbol::new(1)), pos(7));
    let ent = NamedEntity::new(NamedEntityKind::Other, Some(&pos(1)));
    name.set_unique_reference(&ent);
    assert_eq!(name.item.reference, Some(pos(1)));
    assert_eq!(name.pos, pos(7));
    let overloaded = NamedEntity::new(NamedEntityKind::Overloaded, Some(&pos(2)));
    name.set_unique_reference(&overloaded);
    assert_eq!(name.item.reference, None);
    let decl = VisibleDeclaration::new(ident(1), ent);
    name.set_reference(&decl);
    assert_eq!(name.item.reference, Some(pos(1)));
    name.clear_reference();
    assert_eq!(name.item.reference, None);
}

#[test]
fn non_overloaded_entity_is_taken_out() {
    let ent = NamedEntity::new(NamedEntityKind::Constant, Some(&pos(1)));
    let taken = VisibleDeclaration::new(ident(1), ent).into_non_overloaded().unwrap();
    assert!(matches!(taken.kind(), NamedEntityKind::Constant));
    let overloaded = NamedEntity::new(NamedEntityKind::Overloaded, Some(&pos(1)));
    assert!(VisibleDeclaration::new(ident(1), overloaded).into_non_overloaded().is_none());
}

#[test]
fn without_parent_keeps_declarations() {
    let parent = Region::default();
    let mut child = parent.nested();
    let mut diagnostics = Vec::new();
    declare(&mut child, 9, 1, NamedEntityKind::Other, &mut diagnostics);
    let detached = child.without_parent();
    assert!(detached.lookup_immediate(&ident(9)).is_some());
}

#[test]
fn cloned_region_keeps_declarations() {
    let mut region = Region::default();
    let mut diagnostics = Vec::new();
    declare(&mut region, 9, 1, NamedEntityKind::Other, &mut diagnostics);
    let copy = region.clone();
    assert!(copy.lookup_immediate(&ident(9)).is_some());
    let decl = copy.lookup_immediate(&ident(9)).unwrap().clone();
    assert_eq!(decl.named_entities()[0].decl_pos(), Some(&pos(1)));
}

#[test]
fn declaration_made_visible_in_other_region() {
    let mut source = Region::default();
    let mut diagnostics = Vec::new();
    declare(&mut source, 12, 1, NamedEntityKind::Overloaded, &mut diagnostics);
    declare(&mut source, 12, 2, NamedEntityKind::Overloaded, &mut diagnostics);
    let decl = source.lookup_immediate(&ident(12)).unwrap();
    let mut target = Region::default();
    decl.make_potentially_visible_in(&mut target);
    let found = target.lookup_within(&pos(9), &ident(12)).ok().unwrap();
    assert_eq!(found.named_entities().len(), 2);
}
