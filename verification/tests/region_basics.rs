use std::sync::Arc;
use vhdl_region::ast::{
    Designator, ObjectClass, ObjectDeclaration, Operator, Position, Range, Source, SrcPos, Symbol, WithPos, WithRef,
};
use vhdl_region::diagnostic::{Diagnostic, Message, Severity};
use vhdl_region::region::{
    duplicate_error, NamedEntity, NamedEntityKind, Region, SetReference, VisibleDeclaration,
};

fn pos(line: u64) -> SrcPos {
    SrcPos {
        source: Source { id: 1 },
        range: Range {
            start: Position { line, character: 0 },
            end: Position { line, character: 3 },
        },
    }
}

fn ident(id: u64) -> Designator {
    Designator::Identifier(Symbol::new(id))
}

fn error(line: u64, message: Message) -> Diagnostic {
    Diagnostic { pos: pos(line), message, severity: Severity::Error, related: None }
}

fn entity_count(decl: &VisibleDeclaration) -> usize {
    decl.named_entities().len()
}

#[test]
fn duplicate_declaration_is_reported() {
    let mut region = Region::default();
    let mut diagnostics = Vec::new();
    region.add(WithPos::new(ident(7), pos(1)), NamedEntityKind::Other, &mut diagnostics);
    region.add(WithPos::new(ident(7), pos(2)), NamedEntityKind::Other, &mut diagnostics);
    assert_eq!(
        diagnostics,
        vec![Diagnostic {
            pos: pos(2),
            message: Message::DuplicateDeclaration(ident(7)),
            severity: Severity::Error,
            related: Some(pos(1)),
        }]
    );
    let decl = region.lookup_immediate(&ident(7)).unwrap();
    assert_eq!(entity_count(&decl), 1);
    assert_eq!(decl.named_entities()[0].decl_pos(), Some(&pos(1)));
}

#[test]
fn duplicate_of_an_implicit_declaration_has_no_related_position() {
    let mut region = Region::default();
    let mut diagnostics = Vec::new();
    region.add_implicit(ident(7), None, NamedEntityKind::Other, &mut diagnostics);
    region.add(WithPos::new(ident(7), pos(2)), NamedEntityKind::Other, &mut diagnostics);
    assert_eq!(
        diagnostics,
        vec![Diagnostic {
            pos: pos(2),
            message: Message::DuplicateDeclaration(ident(7)),
            severity: Severity::Error,
            related: None,
        }]
    );
}

#[test]
fn duplicate_without_position_is_refused_silently() {
    let mut region = Region::default();
    let mut diagnostics = Vec::new();
    region.add(WithPos::new(ident(7), pos(1)), NamedEntityKind::Other, &mut diagnostics);
    region.add_implicit(ident(7), None, NamedEntityKind::Constant, &mut diagnostics);
    assert!(diagnostics.is_empty());
    assert_eq!(entity_count(&region.lookup_immediate(&ident(7)).unwrap()), 1);
}

#[test]
fn overloaded_declarations_accumulate() {
    let mut region = Region::default();
    let mut diagnostics = Vec::new();
    let name = Designator::OperatorSymbol(Operator::Plus);
    region.add(WithPos::new(name, pos(1)), NamedEntityKind::Overloaded, &mut diagnostics);
    region.add(WithPos::new(name, pos(2)), NamedEntityKind::Overloaded, &mut diagnostics);
    assert!(diagnostics.is_empty());
    let decl = region.lookup_immediate(&name).unwrap();
    assert_eq!(entity_count(&decl), 2);
    assert_eq!(decl.named_entities()[1].decl_pos(), Some(&pos(2)));
    assert_eq!(*decl.designator(), name);
    assert!(decl.into_non_overloaded().is_none());
}

#[test]
fn overloaded_after_non_overloaded_is_a_duplicate() {
    let mut region = Region::default();
    let mut diagnostics = Vec::new();
    region.add(WithPos::new(ident(3), pos(1)), NamedEntityKind::Other, &mut diagnostics);
    region.add(WithPos::new(ident(3), pos(2)), NamedEntityKind::Overloaded, &mut diagnostics);
    assert_eq!(diagnostics.len(), 1);
    assert_eq!(diagnostics[0].message, Message::DuplicateDeclaration(ident(3)));
}

#[test]
fn declared_name_is_found_within() {
    let mut region = Region::default();
    let mut diagnostics = Vec::new();
    region.add(WithPos::new(ident(1), pos(1)), NamedEntityKind::Constant, &mut diagnostics);
    let found = region.lookup_within(&pos(9), &ident(1)).ok().unwrap();
    assert!(matches!(found.first_kind(), NamedEntityKind::Constant));
    let ent = found.into_non_overloaded().unwrap();
    assert_eq!(ent.decl_pos(), Some(&pos(1)));
}

#[test]
fn missing_name_is_reported() {
    let region = Region::default();
    let result = region.lookup_within(&pos(9), &ident(1));
    assert_eq!(result.err(), Some(error(9, Message::NoDeclaration(ident(1)))));
}

#[test]
fn nested_region_sees_parent_declarations() {
    let mut parent = Region::default();
    let mut diagnostics = Vec::new();
    parent.add(WithPos::new(ident(1), pos(1)), NamedEntityKind::Other, &mut diagnostics);
    let mut child = parent.nested();
    child.add(WithPos::new(ident(2), pos(2)), NamedEntityKind::Other, &mut diagnostics);
    assert!(child.lookup_within(&pos(9), &ident(1)).is_ok());
    assert!(child.lookup_within(&pos(9), &ident(2)).is_ok());
    assert!(parent.lookup_within(&pos(9), &ident(2)).is_err());
    // The immediate lookup reaches enclosing regions too
    let from_parent = child.lookup_immediate(&ident(1)).unwrap();
    assert_eq!(from_parent.named_entities()[0].decl_pos(), Some(&pos(1)));
    assert!(child.lookup_selected(&ident(1)).is_some());
    // A declaration in the child may reuse a name of the parent
    child.add(WithPos::new(ident(1), pos(3)), NamedEntityKind::Other, &mut diagnostics);
    assert!(diagnostics.is_empty());
    let inner = child.lookup_within(&pos(9), &ident(1)).ok().unwrap();
    assert_eq!(inner.named_entities()[0].decl_pos(), Some(&pos(3)));
}

#[test]
fn use_clause_makes_name_visible() {
    let mut region = Region::default();
    let ent = NamedEntity::new(NamedEntityKind::Other, Some(&pos(5)));
    region.make_potentially_visible(ident(4), ent);
    let found = region.lookup_within(&pos(9), &ident(4)).ok().unwrap();
    assert_eq!(found.named_entities()[0].decl_pos(), Some(&pos(5)));
    // Visibility does not count for a selected name
    assert!(region.lookup_selected(&ident(4)).is_none());
}

#[test]
fn declaration_comes_before_use_clause() {
    let mut region = Region::default();
    let mut diagnostics = Vec::new();
    region.make_potentially_visible(ident(4), NamedEntity::new(NamedEntityKind::Other, Some(&pos(5))));
    region.add(WithPos::new(ident(4), pos(6)), NamedEntityKind::Other, &mut diagnostics);
    assert!(diagnostics.is_empty());
    let found = region.lookup_within(&pos(9), &ident(4)).ok().unwrap();
    assert_eq!(entity_count(&found), 1);
    assert_eq!(found.named_entities()[0].decl_pos(), Some(&pos(6)));
}

#[test]
fn conflicting_use_clauses_hide_each_other() {
    let mut region = Region::default();
    region.make_potentially_visible(ident(4), NamedEntity::new(NamedEntityKind::Other, Some(&pos(5))));
    region.make_potentially_visible(ident(4), NamedEntity::new(NamedEntityKind::Constant, Some(&pos(6))));
    let result = region.lookup_within(&pos(9), &ident(4));
    assert_eq!(result.err(), Some(error(9, Message::HiddenByUseClause(ident(4)))));
}

#[test]
fn same_entity_made_visible_twice_does_not_conflict() {
    let mut region = Region::default();
    region.make_potentially_visible(ident(4), NamedEntity::new(NamedEntityKind::Other, Some(&pos(5))));
    region.make_potentially_visible(ident(4), NamedEntity::new(NamedEntityKind::Other, Some(&pos(5))));
    let found = region.lookup_within(&pos(9), &ident(4)).ok().unwrap();
    assert_eq!(entity_count(&found), 1);
}

#[test]
fn visible_overloads_do_not_conflict() {
    let mut region = Region::default();
    region.make_potentially_visible(ident(4), NamedEntity::new(NamedEntityKind::Overloaded, Some(&pos(5))));
    region.make_potentially_visible(ident(4), NamedEntity::new(NamedEntityKind::Overloaded, Some(&pos(6))));
    let found = region.lookup_within(&pos(9), &ident(4)).ok().unwrap();
    assert_eq!(entity_count(&found), 2);
}

#[test]
fn visible_alias_disables_hiding() {
    let mut region = Region::default();
    let target = NamedEntity::new(NamedEntityKind::Other, Some(&pos(5)));
    let alias = NamedEntity::new(NamedEntityKind::AliasOf(Box::new(target.clone())), Some(&pos(6)));
    region.make_potentially_visible(ident(4), target);
    region.make_potentially_visible(ident(4), alias);
    let found = region.lookup_within(&pos(9), &ident(4)).ok().unwrap();
    assert_eq!(entity_count(&found), 2);
}

#[test]
fn library_is_made_visible() {
    let mut region = Region::default();
    region.make_library_visible(ident(8), &Symbol::new(80));
    let found = region.lookup_within(&pos(9), &ident(8)).ok().unwrap();
    assert!(matches!(found.first_kind(), NamedEntityKind::Library(sym) if sym.id == 80));
    assert_eq!(found.named_entities()[0].decl_pos(), None);
}

#[test]
fn whole_region_made_visible() {
    let mut package = Region::default();
    let mut diagnostics = Vec::new();
    package.add(WithPos::new(ident(11), pos(1)), NamedEntityKind::Other, &mut diagnostics);
    let package = Arc::new(package);
    let mut region = Region::default();
    region.make_all_potentially_visible(&package);
    let found = region.lookup_within(&pos(9), &ident(11)).ok().unwrap();
    assert_eq!(found.named_entities()[0].decl_pos(), Some(&pos(1)));
}

#[test]
fn context_visibility_is_added() {
    let mut context = Region::default();
    context.make_library_visible(ident(8), &Symbol::new(80));
    let mut region = Region::default();
    region.add_context_visibility(&context);
    assert!(region.lookup_within(&pos(9), &ident(8)).is_ok());
}

#[test]
fn using_a_type_makes_its_literals_visible() {
    let mut literals = Region::default();
    let mut diagnostics = Vec::new();
    literals.add(WithPos::new(ident(21), pos(2)), NamedEntityKind::Overloaded, &mut diagnostics);
    let typ = NamedEntity::new(NamedEntityKind::TypeDeclaration(Some(Arc::new(literals))), Some(&pos(1)));
    let mut region = Region::default();
    region.make_potentially_visible(ident(20), typ);
    assert!(region.lookup_within(&pos(9), &ident(20)).is_ok());
    let literal = region.lookup_within(&pos(9), &ident(21)).ok().unwrap();
    assert_eq!(literal.named_entities()[0].decl_pos(), Some(&pos(2)));
}

#[test]
fn implicit_declarations_are_added() {
    let mut literals = Region::default();
    let mut diagnostics = Vec::new();
    literals.add(WithPos::new(ident(21), pos(2)), NamedEntityKind::Overloaded, &mut diagnostics);
    literals.add(WithPos::new(ident(22), pos(3)), NamedEntityKind::Overloaded, &mut diagnostics);
    let typ = NamedEntity::new(NamedEntityKind::TypeDeclaration(Some(Arc::new(literals))), Some(&pos(1)));
    let alias = NamedEntity::new(NamedEntityKind::AliasOf(Box::new(typ)), Some(&pos(4)));
    let mut region = Region::default();
    region.add_implicit_declarations(Some(&pos(4)), &alias, &mut diagnostics);
    assert!(diagnostics.is_empty());
    for id in [21, 22] {
        let decl = region.lookup_immediate(&ident(id)).unwrap();
        assert_eq!(decl.named_entities()[0].decl_pos(), Some(&pos(4)));
        assert!(matches!(decl.first_kind(), NamedEntityKind::Overloaded));
    }
}

#[test]
fn implicit_declarations_of_other_entities_are_none() {
    let mut region = Region::default();
    let mut diagnostics = Vec::new();
    let ent = NamedEntity::new(NamedEntityKind::TypeDeclaration(None), Some(&pos(1)));
    region.add_implicit_declarations(Some(&pos(1)), &ent, &mut diagnostics);
    assert!(diagnostics.is_empty());
    assert!(region.lookup_immediate(&ident(21)).is_none());
}

#[test]
fn overwrite_replaces_declaration() {
    let mut region = Region::default();
    let mut diagnostics = Vec::new();
    region.add(WithPos::new(ident(5), pos(1)), NamedEntityKind::IncompleteType, &mut diagnostics);
    region.overwrite(WithPos::new(ident(5), pos(2)), NamedEntityKind::Other);
    let decl = region.lookup_immediate(&ident(5)).unwrap();
    assert_eq!(entity_count(&decl), 1);
    assert!(matches!(decl.first_kind(), NamedEntityKind::Other));
    assert_eq!(decl.named_entities()[0].decl_pos(), Some(&pos(2)));
}

#[test]
fn incomplete_type_is_completed() {
    let mut region = Region::default();
    let mut diagnostics = Vec::new();
    region.add(WithPos::new(ident(5), pos(1)), NamedEntityKind::IncompleteType, &mut diagnostics);
    region.add(WithPos::new(ident(5), pos(2)), NamedEntityKind::TypeDeclaration(None), &mut diagnostics);
    assert!(diagnostics.is_empty());
    let decl = region.lookup_immediate(&ident(5)).unwrap();
    assert_eq!(entity_count(&decl), 2);
    assert!(matches!(decl.named_entities()[1].kind(), NamedEntityKind::TypeDeclaration(None)));
    // A second full declaration is a duplicate of the first one
    region.add(WithPos::new(ident(5), pos(3)), NamedEntityKind::TypeDeclaration(None), &mut diagnostics);
    assert_eq!(
        diagnostics,
        vec![Diagnostic {
            pos: pos(3),
            message: Message::DuplicateDeclaration(ident(5)),
            severity: Severity::Error,
            related: Some(pos(2)),
        }]
    );
}

#[test]
fn incomplete_type_is_not_completed_by_other_kinds() {
    let mut region = Region::default();
    let mut diagnostics = Vec::new();
    region.add(WithPos::new(ident(5), pos(1)), NamedEntityKind::IncompleteType, &mut diagnostics);
    region.add(WithPos::new(ident(5), pos(2)), NamedEntityKind::Other, &mut diagnostics);
    assert_eq!(diagnostics.len(), 1);
    assert_eq!(diagnostics[0].related, Some(pos(1)));
}

#[test]
fn immediate_lookup_reaches_grandparent() {
    let mut outer = Region::default();
    let mut diagnostics = Vec::new();
    outer.add(WithPos::new(ident(30), pos(1)), NamedEntityKind::Other, &mut diagnostics);
    let middle = outer.nested();
    let inner = middle.nested();
    let found = inner.lookup_immediate(&ident(30)).unwrap();
    assert_eq!(*found.designator(), ident(30));
    assert!(inner.lookup_immediate(&ident(31)).is_none());
}

#[test]
fn same_entity_made_visible_many_times_is_found() {
    let mut region = Region::default();
    for _ in 0..4 {
        region.make_potentially_visible(ident(4), NamedEntity::new(NamedEntityKind::Other, Some(&pos(5))));
    }
    let found = region.lookup_within(&pos(9), &ident(4)).ok().unwrap();
    assert_eq!(entity_count(&found), 1);
    assert_eq!(*found.designator(), ident(4));
}
