//! Extraction of the services of a supergraph: the supergraph is checked, the
//! registry seeded and scaffolded, the types populated kind by kind, the
//! schemas given the executable directives of the supergraph and pruned, and
//! each service completed with the federation operations and validated.
use crate::kinds::{
    all_kinds_follow, kinds_within, kinds_within_all, kinds_within_operations,
    kinds_within_operations_all, lemma_follow_kept, lemma_follow_operations, lemma_follow_within,
    lemma_kinds_kept_chain, lemma_operations_all_edit, lemma_preamble_follows,
    lemma_same_kinds_chain, lemma_within_after_same, lemma_within_all_edit, same_kinds,
};
use crate::ownership::lemma_seed;
use crate::placement::{
    all_placed, lemma_enums_placed_kept, lemma_kinds_kept_types, lemma_members_kept_chain,
    lemma_types_placed_kept, lemma_unions_placed_kept,
};
use crate::schema::TypeKind;
use crate::supergraph::{required_directive, versioned_directive};
use crate::closure::all_closed;
use crate::edits::outcome;
use crate::enums::{enum_content, extract_enum_type_content};
use crate::error::{ErrorView, FederationError};
use crate::fields::{bare_input, bare_inputs};
use crate::inputs::{extract_input_object_type_content, input_content};
use crate::interfaces::{extract_interface_type_content, interface_content};
use crate::lineage::{
    all_accounted, lemma_entity_surface_exact, lemma_type_lineage, service_exact,
};
use crate::links::Version;
use crate::objects::{extract_object_type_content, object_content};
use crate::ordered::GraphNames;
use crate::ownership::{all_members_accounted, lemma_ownership_closure, origin_of};
use crate::scaffold::{add_all_empty_subgraph_types, collect_empty_subgraphs, scaffold, seed};
use crate::schema::{
    DirectiveDefinition, DirectiveDefinitionView, DirectiveLocation, Schema, SchemaView,
};
use crate::seqs::{lemma_deep_view_push, try_fold};
use crate::subgraphs::{
    FederationSubgraph, FederationSubgraphs, SubgraphView, edit_at, get_subgraph, lemma_with_schema,
    names_of, resolve, sorted_by_name,
};
use crate::supergraph::{Specs, SpecsView, resolve_specs, validate_supergraph};
use crate::surface::{lemma_services_consistent, service_consistent, surface_consistent};
use crate::text::seq_lt;
use crate::unions::{extract_union_type_content, union_content};
use crate::validation::{validate_subgraph, validation_diagnostics, verdict};
use vstd::prelude::*;
use vstd::string::*;

verus! {

/// Whether a directive may be applied at the location in an executable
/// document.
pub open spec fn is_executable_location(l: DirectiveLocation) -> bool {
    match l {
        DirectiveLocation::Query
        | DirectiveLocation::Mutation
        | DirectiveLocation::Subscription
        | DirectiveLocation::Field
        | DirectiveLocation::FragmentDefinition
        | DirectiveLocation::FragmentSpread
        | DirectiveLocation::InlineFragment
        | DirectiveLocation::VariableDefinition => true,
        _ => false,
    }
}

/// The locations of executable documents.
pub open spec fn executable() -> spec_fn(DirectiveLocation) -> bool {
    |l: DirectiveLocation| is_executable_location(l)
}

/// The directive definitions with a location in executable documents.
pub open spec fn has_executable_location() -> spec_fn(DirectiveDefinitionView) -> bool {
    |d: DirectiveDefinitionView| d.locations.filter(executable()).len() > 0
}

/// The directive definition cut down to executable documents: its locations
/// there only, and its arguments without their directives.
pub open spec fn executable_part() -> spec_fn(DirectiveDefinitionView) -> DirectiveDefinitionView {
    |d: DirectiveDefinitionView|
        DirectiveDefinitionView {
            name: d.name,
            arguments: d.arguments.map_values(bare_input()),
            repeatable: d.repeatable,
            locations: d.locations.filter(executable()),
        }
}

/// The directive definitions of `supergraph` that have a location in
/// executable documents, each cut down to such documents.
pub open spec fn executable_definitions(supergraph: SchemaView) -> Seq<DirectiveDefinitionView> {
    supergraph.directive_definitions.filter(has_executable_location()).map_values(
        executable_part(),
    )
}

/// Whether a directive may be applied at the location in an executable
/// document.
pub fn is_executable(l: DirectiveLocation) -> (r: bool)
    ensures
        r == is_executable_location(l),
{
    match l {
        DirectiveLocation::Query
        | DirectiveLocation::Mutation
        | DirectiveLocation::Subscription
        | DirectiveLocation::Field
        | DirectiveLocation::FragmentDefinition
        | DirectiveLocation::FragmentSpread
        | DirectiveLocation::InlineFragment
        | DirectiveLocation::VariableDefinition => true,
        _ => false,
    }
}

/// The locations among `locations` that are in executable documents.
fn executable_locations(locations: &Vec<DirectiveLocation>) -> (r: Vec<DirectiveLocation>)
    ensures
        r@ == locations@.filter(executable()),
{
    let mut r: Vec<DirectiveLocation> = Vec::new();
    let mut i: usize = 0;
    proof {
        reveal(Seq::filter);
        assert(locations@.take(0) =~= Seq::<DirectiveLocation>::empty());
    }
    while i < locations.len()
        invariant
            i <= locations.len(),
            r@ == locations@.take(i as int).filter(executable()),
        decreases locations.len() - i,
    {
        proof {
            assert(locations@.take(i + 1) =~= locations@.take(i as int).push(locations@[i as int]));
            locations@.take(i as int).lemma_filter_push(locations@[i as int], executable());
        }
        if is_executable(locations[i]) {
            r.push(locations[i]);
        }
        i += 1;
    }
    assert(locations@.take(locations.len() as int) =~= locations@);
    r
}

/// The directive definitions of `supergraph` that have a location in
/// executable documents, each cut down to such documents.
pub fn collect_executable_definitions(supergraph: &Schema) -> (r: Vec<DirectiveDefinition>)
    ensures
        r.deep_view() == executable_definitions(supergraph@),
{
    let ghost all = supergraph@.directive_definitions;
    let mut r: Vec<DirectiveDefinition> = Vec::new();
    let mut i: usize = 0;
    proof {
        reveal(Seq::filter);
        assert(all.take(0) =~= Seq::<DirectiveDefinitionView>::empty());
        assert(r.deep_view() =~= all.take(0).filter(has_executable_location()).map_values(
            executable_part(),
        ));
    }
    while i < supergraph.directive_definitions.len()
        invariant
            i <= supergraph.directive_definitions.len(),
            all == supergraph@.directive_definitions,
            r.deep_view() == all.take(i as int).filter(has_executable_location()).map_values(
                executable_part(),
            ),
        decreases supergraph.directive_definitions.len() - i,
    {
        let d = &supergraph.directive_definitions[i];
        let locations = executable_locations(&d.locations);
        proof {
            assert(all.take(i + 1) =~= all.take(i as int).push(all[i as int]));
            all.take(i as int).lemma_filter_push(all[i as int], has_executable_location());
        }
        if locations.len() > 0 {
            let part = DirectiveDefinition {
                name: d.name.clone(),
                arguments: bare_inputs(&d.arguments),
                repeatable: d.repeatable,
                locations,
            };
            let ghost before = r;
            r.push(part);
            proof {
                lemma_deep_view_push(before, r, part);
                assert(r.deep_view() =~= all.take(i + 1).filter(
                    has_executable_location(),
                ).map_values(executable_part()));
            }
        }
        i += 1;
    }
    assert(all.take(supergraph.directive_definitions.len() as int) =~= all);
    r
}

/// One step of adding directive definitions to a schema.
pub open spec fn definition_step() -> spec_fn(SchemaView, DirectiveDefinitionView) -> Result<
    SchemaView,
    ErrorView,
> {
    |schema: SchemaView, d: DirectiveDefinitionView| schema.insert_directive_definition(d)
}

/// The schema given the directive definitions, then pruned.
pub open spec fn finish_schema(schema: SchemaView, definitions: Seq<DirectiveDefinitionView>) -> Result<
    SchemaView,
    ErrorView,
> {
    match try_fold(definitions, 0, schema, definition_step()) {
        Ok(s) => Ok(s.prune()),
        Err(e) => Err(e),
    }
}

/// One step of finishing the services: the schema of the service is given
/// the directive definitions and pruned.
pub open spec fn finish_step(definitions: Seq<DirectiveDefinitionView>) -> spec_fn(
    Seq<SubgraphView>,
    SubgraphView,
) -> Result<Seq<SubgraphView>, ErrorView> {
    |done: Seq<SubgraphView>, subgraph: SubgraphView|
        match finish_schema(subgraph.schema, definitions) {
            Err(e) => Err(e),
            Ok(schema) => Ok(done.push(SubgraphView { schema, ..subgraph })),
        }
}

/// The registry after every service, in the order of the registry, has been
/// given the directive definitions and pruned.
pub open spec fn finish(
    subgraphs: Seq<SubgraphView>,
    definitions: Seq<DirectiveDefinitionView>,
) -> Result<Seq<SubgraphView>, ErrorView> {
    try_fold(subgraphs, 0, Seq::<SubgraphView>::empty(), finish_step(definitions))
}

/// The registry after the types of `supergraph` have been scaffolded and
/// populated kind by kind, before the services are finished.
pub open spec fn populated(
    supergraph: SchemaView,
    specs: SpecsView,
    names: Seq<(Seq<char>, Seq<char>)>,
    subgraphs: Seq<SubgraphView>,
) -> Result<Seq<SubgraphView>, ErrorView> {
    match scaffold(supergraph, specs, names, subgraphs) {
        Err(e) => Err(e),
        Ok(st) => match object_content(
            supergraph,
            specs.join,
            names,
            st.subgraphs,
            st.infos.object_types,
        ) {
            Err(e) => Err(e),
            Ok(s1) => match interface_content(
                supergraph,
                specs.join,
                names,
                s1,
                st.infos.interface_types,
            ) {
                Err(e) => Err(e),
                Ok(s2) => match union_content(
                    supergraph,
                    specs.join,
                    names,
                    s2,
                    st.infos.union_types,
                ) {
                    Err(e) => Err(e),
                    Ok(s3) => match enum_content(
                        supergraph,
                        specs.join,
                        names,
                        s3,
                        st.infos.enum_types,
                    ) {
                        Err(e) => Err(e),
                        Ok(s4) => input_content(
                            supergraph,
                            specs.join,
                            names,
                            s4,
                            st.infos.input_object_types,
                        ),
                    },
                },
            },
        },
    }
}

/// The registry after the types of `supergraph` have been scaffolded and
/// populated kind by kind, objects first, then interfaces, unions, enums and
/// input objects, and every service given the executable directives of the
/// supergraph and pruned.
pub open spec fn populate(
    supergraph: SchemaView,
    specs: SpecsView,
    names: Seq<(Seq<char>, Seq<char>)>,
    subgraphs: Seq<SubgraphView>,
) -> Result<Seq<SubgraphView>, ErrorView> {
    match scaffold(supergraph, specs, names, subgraphs) {
        Err(e) => Err(e),
        Ok(st) => match object_content(
            supergraph,
            specs.join,
            names,
            st.subgraphs,
            st.infos.object_types,
        ) {
            Err(e) => Err(e),
            Ok(s1) => match interface_content(
                supergraph,
                specs.join,
                names,
                s1,
                st.infos.interface_types,
            ) {
                Err(e) => Err(e),
                Ok(s2) => match union_content(
                    supergraph,
                    specs.join,
                    names,
                    s2,
                    st.infos.union_types,
                ) {
                    Err(e) => Err(e),
                    Ok(s3) => match enum_content(
                        supergraph,
                        specs.join,
                        names,
                        s3,
                        st.infos.enum_types,
                    ) {
                        Err(e) => Err(e),
                        Ok(s4) => match input_content(
                            supergraph,
                            specs.join,
                            names,
                            s4,
                            st.infos.input_object_types,
                        ) {
                            Err(e) => Err(e),
                            Ok(s5) => finish(s5, executable_definitions(supergraph)),
                        },
                    },
                },
            },
        },
    }
}

/// Populating, then finishing: the services are populated kind by kind, and
/// then each is given the executable directives and pruned.
pub proof fn lemma_populate_finishes(
    supergraph: SchemaView,
    specs: SpecsView,
    names: Seq<(Seq<char>, Seq<char>)>,
    subgraphs: Seq<SubgraphView>,
)
    ensures
        populate(supergraph, specs, names, subgraphs) == match populated(
            supergraph,
            specs,
            names,
            subgraphs,
        ) {
            Ok(registry) => finish(registry, executable_definitions(supergraph)),
            Err(e) => Err(e),
        },
{
}

/// Whether the services of `supergraph`, as they are when they have been
/// populated and before they are finished, have every member that the rules
/// give them.
pub open spec fn placed_when_populated(supergraph: SchemaView) -> bool {
    let o = origin_of(supergraph);
    let seeded = seed(supergraph, o.specs.join)->Ok_0.subgraphs;
    populated(supergraph, o.specs, o.names, seeded) matches Ok(registry) && all_placed(
        registry,
        o.names,
        supergraph,
        o.specs.join,
        scaffold(supergraph, o.specs, o.names, seeded)->Ok_0.infos,
    )
}

/// Whether every schema of the registry is free of empty shells.
pub open spec fn all_without_empty_shells(subgraphs: Seq<SubgraphView>) -> bool {
    forall|i: int| 0 <= i < subgraphs.len() ==> (#[trigger] subgraphs[i]).schema.no_empty_shells()
}

/// Gives the schema the directive definitions and prunes it.
fn finish_one(schema: &mut Schema, definitions: &Vec<DirectiveDefinition>) -> (r: Result<
    (),
    FederationError,
>)
    ensures
        outcome(r, final(schema)@, finish_schema(old(schema)@, definitions.deep_view())),
        r is Ok ==> final(schema)@.no_empty_shells(),
        old(schema)@.closed() && r is Ok ==> final(schema)@.closed(),
        r is Ok ==> kinds_within(old(schema)@, final(schema)@),
{
    let ghost all = definitions.deep_view();
    let mut k: usize = 0;
    while k < definitions.len()
        invariant
            k <= definitions.len(),
            all == definitions.deep_view(),
            old(schema)@.closed() ==> schema@.closed(),
            same_kinds(old(schema)@, schema@),
            try_fold(all, k as int, schema@, definition_step()) == try_fold(
                all,
                0,
                old(schema)@,
                definition_step(),
            ),
        decreases definitions.len() - k,
    {
        let ghost before = schema@;
        let added = schema.insert_directive_definition(definitions[k].clone());
        proof {
            lemma_same_kinds_chain(old(schema)@, before, schema@);
        }
        added?;
        k += 1;
    }
    let ghost defined = schema@;
    schema.prune();
    proof {
        assert(kinds_within(defined, schema@));
        lemma_within_after_same(old(schema)@, defined, schema@);
    }
    Ok(())
}

/// Gives every service the directive definitions and prunes it.
fn finish_all(subgraphs: &mut FederationSubgraphs, definitions: &Vec<DirectiveDefinition>) -> (r:
    Result<(), FederationError>)
    ensures
        outcome(r, final(subgraphs)@, finish(old(subgraphs)@, definitions.deep_view())),
        names_of(final(subgraphs)@) == names_of(old(subgraphs)@),
        all_closed(old(subgraphs)@) && r is Ok ==> all_closed(final(subgraphs)@),
        r is Ok ==> all_without_empty_shells(final(subgraphs)@),
        r is Ok ==> kinds_within_all(old(subgraphs)@, final(subgraphs)@),
{
    let ghost orig = subgraphs@;
    let ghost step = finish_step(definitions.deep_view());
    let n = subgraphs.subgraphs.len();
    assert(subgraphs@.take(0) =~= Seq::<SubgraphView>::empty());
    let mut k: usize = 0;
    while k < n
        invariant
            k <= n,
            n == orig.len(),
            orig == old(subgraphs)@,
            subgraphs@.len() == n,
            step == finish_step(definitions.deep_view()),
            names_of(subgraphs@) == names_of(orig),
            all_closed(orig) ==> all_closed(subgraphs@),
            kinds_within_all(orig, subgraphs@),
            forall|j: int| k <= j < n ==> (#[trigger] subgraphs@[j]) == orig[j],
            all_without_empty_shells(subgraphs@.take(k as int)),
            try_fold(orig, k as int, subgraphs@.take(k as int), step) == try_fold(
                orig,
                0,
                Seq::<SubgraphView>::empty(),
                step,
            ),
        decreases n - k,
    {
        let ghost before = subgraphs.subgraphs;
        assert(subgraphs@[k as int] == orig[k as int]);
        finish_one(&mut subgraphs.subgraphs[k].schema, definitions)?;
        proof {
            lemma_with_schema(before, subgraphs.subgraphs, k as int);
            lemma_within_all_edit(
                orig,
                before.deep_view(),
                k as int,
                subgraphs.subgraphs@[k as int].schema@,
            );
            assert(subgraphs@.take(k + 1) =~= before.deep_view().take(k as int).push(
                subgraphs@[k as int],
            ));
            assert(before.deep_view()[k as int] == orig[k as int]);
            assert forall|j: int| k + 1 <= j < n implies (#[trigger] subgraphs@[j]) == orig[j] by {
                assert(before.deep_view()[j] == orig[j]);
            }
        }
        k += 1;
    }
    assert(subgraphs@.take(n as int) =~= subgraphs@);
    Ok(())
}

/// Draws the services of a supergraph of the current generation: scaffolds
/// the types, populates them kind by kind, gives each service the executable
/// directives of the supergraph and prunes it.
pub fn extract_subgraphs_from_fed_2_supergraph(
    supergraph: &Schema,
    subgraphs: &mut FederationSubgraphs,
    names: &GraphNames,
    specs: &Specs,
) -> (r: Result<(), FederationError>)
    ensures
        outcome(
            r,
            final(subgraphs)@,
            populate(supergraph@, specs.deep_view(), names@, old(subgraphs)@),
        ),
        names_of(final(subgraphs)@) == names_of(old(subgraphs)@),
        all_closed(old(subgraphs)@) && r is Ok ==> all_closed(final(subgraphs)@),
        r is Ok ==> all_without_empty_shells(final(subgraphs)@),
        all_kinds_follow(supergraph@, old(subgraphs)@) && r is Ok ==> all_kinds_follow(
            supergraph@,
            final(subgraphs)@,
        ),
        r is Ok ==> populated(supergraph@, specs.deep_view(), names@, old(subgraphs)@) is Ok
            && all_placed(
            populated(supergraph@, specs.deep_view(), names@, old(subgraphs)@)->Ok_0,
            names@,
            supergraph@,
            specs.deep_view().join,
            scaffold(supergraph@, specs.deep_view(), names@, old(subgraphs)@)->Ok_0.infos,
        ),
{
    let infos = add_all_empty_subgraph_types(supergraph, specs, subgraphs, names)?;
    let ghost scaffolded = subgraphs@;
    extract_object_type_content(supergraph, subgraphs, names, &specs.join, &infos.object_types)?;
    let ghost with_objects = subgraphs@;
    extract_interface_type_content(
        supergraph,
        subgraphs,
        names,
        &specs.join,
        &infos.interface_types,
    )?;
    let ghost with_interfaces = subgraphs@;
    extract_union_type_content(
        supergraph,
        subgraphs,
        names,
        &specs.join,
        &infos.union_types,
    )?;
    let ghost with_unions = subgraphs@;
    extract_enum_type_content(supergraph, subgraphs, names, &specs.join, &infos.enum_types)?;
    let ghost with_enums = subgraphs@;
    extract_input_object_type_content(
        supergraph,
        subgraphs,
        names,
        &specs.join,
        &infos.input_object_types,
    )?;
    let ghost populated = subgraphs@;
    proof {
        let field = required_directive(supergraph@, specs.deep_view().join, "field"@)->Ok_0;
        let member = versioned_directive(supergraph@, specs.deep_view().join, "unionMember"@, 3)->Ok_0;
        let value = versioned_directive(supergraph@, specs.deep_view().join, "enumValue"@, 3)->Ok_0;
        let records = infos.deep_view();
        let objects = records.object_types;
        let interfaces = records.interface_types;
        lemma_types_placed_kept(
            with_objects,
            with_interfaces,
            names@,
            field,
            supergraph@,
            TypeKind::Object,
            objects,
            objects.len() as int,
        );
        lemma_members_kept_chain(with_interfaces, with_unions, with_enums);
        lemma_members_kept_chain(with_interfaces, with_enums, populated);
        lemma_types_placed_kept(
            with_interfaces,
            populated,
            names@,
            field,
            supergraph@,
            TypeKind::Object,
            objects,
            objects.len() as int,
        );
        lemma_types_placed_kept(
            with_interfaces,
            populated,
            names@,
            field,
            supergraph@,
            TypeKind::Interface,
            interfaces,
            interfaces.len() as int,
        );
        lemma_members_kept_chain(with_unions, with_enums, populated);
        lemma_kinds_kept_chain(with_unions, with_enums, populated);
        lemma_kinds_kept_types(with_unions, populated);
        lemma_unions_placed_kept(
            with_unions,
            populated,
            names@,
            member,
            supergraph@,
            records.union_types,
            records.union_types.len() as int,
        );
        lemma_enums_placed_kept(
            with_enums,
            populated,
            names@,
            value,
            supergraph@,
            records.enum_types,
            records.enum_types.len() as int,
        );
    }
    let definitions = collect_executable_definitions(supergraph);
    let r = finish_all(subgraphs, &definitions);
    proof {
        if all_kinds_follow(supergraph@, old(subgraphs)@) && r is Ok {
            lemma_kinds_kept_chain(scaffolded, with_objects, with_interfaces);
            lemma_kinds_kept_chain(scaffolded, with_interfaces, with_unions);
            lemma_kinds_kept_chain(scaffolded, with_unions, with_enums);
            lemma_kinds_kept_chain(scaffolded, with_enums, populated);
            lemma_follow_kept(supergraph@, scaffolded, populated);
            lemma_follow_within(supergraph@, populated, subgraphs@);
        }
    }
    r
}

/// The schema of a service completed: given the federation operations and,
/// where validation is asked for, found valid. A schema that validation
/// rejects is an error that names the service and holds the diagnostics.
pub open spec fn complete_schema(subgraph: SubgraphView, validate: bool) -> Result<
    SchemaView,
    ErrorView,
> {
    match subgraph.schema.add_federation_operations() {
        Err(e) => Err(e),
        Ok(schema) => if validate {
            match verdict(subgraph.name, validation_diagnostics(schema.sdl())) {
                Ok(_) => Ok(schema),
                Err(e) => Err(e),
            }
        } else {
            Ok(schema)
        },
    }
}

/// One step of completing the services: the service that the value of the
/// graph enumeration stands for is completed.
pub open spec fn complete_step(names: Seq<(Seq<char>, Seq<char>)>, validate: bool) -> spec_fn(
    Seq<SubgraphView>,
    (Seq<char>, Seq<char>),
) -> Result<Seq<SubgraphView>, ErrorView> {
    |subgraphs: Seq<SubgraphView>, entry: (Seq<char>, Seq<char>)|
        match resolve(names, subgraphs, entry.0) {
            Err(e) => Err(e),
            Ok(i) => edit_at(subgraphs, i, complete_schema(subgraphs[i], validate)),
        }
}

/// The registry after every service has been completed, in the order of the
/// graph enumeration.
pub open spec fn complete(
    names: Seq<(Seq<char>, Seq<char>)>,
    subgraphs: Seq<SubgraphView>,
    validate: bool,
) -> Result<Seq<SubgraphView>, ErrorView> {
    try_fold(names, 0, subgraphs, complete_step(names, validate))
}

/// Whether extraction is deferred for the version of the join specification.
pub open spec fn is_deferred_join_version(v: Version) -> bool {
    v.major == 0 && v.minor == 1
}

/// What is said of a supergraph whose extraction is deferred.
pub open spec fn msg_deferred() -> Seq<char> {
    "Extracting subgraphs from a supergraph that uses join spec version 0.1 is not yet supported"@
}

/// Whether extracted schemas are validated: they are unless the caller says
/// otherwise.
pub open spec fn validation_wanted(validate_extracted_subgraphs: Option<bool>) -> bool {
    match validate_extracted_subgraphs {
        Some(b) => b,
        None => true,
    }
}

/// The services of `supergraph`. The supergraph is checked and the registry
/// seeded; a supergraph at version 0.1 of the join specification is then
/// refused as not yet supported; otherwise the services are populated, and
/// each is completed with the federation operations and, unless the caller
/// declines it, validated.
pub open spec fn extraction(supergraph: SchemaView, validate_extracted_subgraphs: Option<bool>) -> Result<
    Seq<SubgraphView>,
    ErrorView,
> {
    match resolve_specs(supergraph) {
        Err(e) => Err(e),
        Ok(specs) => match seed(supergraph, specs.join) {
            Err(e) => Err(e),
            Ok(seeded) => if is_deferred_join_version(specs.join.version) {
                Err(ErrorView::UnsupportedFederationVersion { message: msg_deferred() })
            } else {
                match populate(supergraph, specs, seeded.names, seeded.subgraphs) {
                    Err(e) => Err(e),
                    Ok(populated) => complete(
                        seeded.names,
                        populated,
                        validation_wanted(validate_extracted_subgraphs),
                    ),
                }
            },
        },
    }
}

/// A registry with the names of a sorted one, in the same order, is sorted.
pub proof fn lemma_same_names_sorted(a: Seq<SubgraphView>, b: Seq<SubgraphView>)
    requires
        names_of(a) == names_of(b),
        sorted_by_name(a),
    ensures
        sorted_by_name(b),
{
    assert(a.len() == names_of(a).len());
    assert(b.len() == names_of(b).len());
    assert forall|i: int, j: int| 0 <= i < j < b.len() implies seq_lt(
        (#[trigger] b[i]).name,
        (#[trigger] b[j]).name,
    ) by {
        assert(names_of(a)[i] == a[i].name);
        assert(names_of(b)[i] == b[i].name);
        assert(names_of(a)[j] == a[j].name);
        assert(names_of(b)[j] == b[j].name);
    }
}

/// Completes one service: adds the federation operations and, where
/// validation is asked for, validates the schema.
pub fn complete_subgraph(subgraph: &mut FederationSubgraph, validate: bool) -> (r: Result<
    (),
    FederationError,
>)
    ensures
        match complete_schema(old(subgraph)@, validate) {
            Ok(schema) => r is Ok && final(subgraph)@ == (SubgraphView {
                schema,
                ..old(subgraph)@
            }),
            Err(e) => r is Err && r->Err_0@ == e,
        },
        final(subgraph).name == old(subgraph).name,
        final(subgraph).url == old(subgraph).url,
        old(subgraph)@.schema.closed() && r is Ok ==> final(subgraph)@.schema.closed(),
        old(subgraph)@.schema.no_empty_shells() && r is Ok
            ==> final(subgraph)@.schema.no_empty_shells(),
        r is Ok ==> surface_consistent(final(subgraph)@.schema),
        r is Ok ==> kinds_within_operations(old(subgraph)@.schema, final(subgraph)@.schema),
{
    subgraph.schema.add_federation_operations()?;
    if validate {
        let sdl = subgraph.schema.to_sdl();
        validate_subgraph(subgraph.name.as_str(), sdl.as_str())?;
    }
    Ok(())
}

/// Completes every service, in the order of the graph enumeration.
fn complete_all(subgraphs: &mut FederationSubgraphs, names: &GraphNames, validate: bool) -> (r:
    Result<(), FederationError>)
    ensures
        outcome(r, final(subgraphs)@, complete(names@, old(subgraphs)@, validate)),
        names_of(final(subgraphs)@) == names_of(old(subgraphs)@),
        all_closed(old(subgraphs)@) && r is Ok ==> all_closed(final(subgraphs)@),
        r is Ok ==> kinds_within_operations_all(old(subgraphs)@, final(subgraphs)@),
        all_without_empty_shells(old(subgraphs)@) && r is Ok ==> all_without_empty_shells(
            final(subgraphs)@,
        ),
{
    let count = names.len();
    let ghost all = names@;
    let ghost step = complete_step(names@, validate);
    let mut k: usize = 0;
    while k < count
        invariant
            k <= count,
            count == all.len(),
            all == names@,
            step == complete_step(names@, validate),
            names_of(subgraphs@) == names_of(old(subgraphs)@),
            all_closed(old(subgraphs)@) ==> all_closed(subgraphs@),
            kinds_within_operations_all(old(subgraphs)@, subgraphs@),
            all_without_empty_shells(old(subgraphs)@) ==> all_without_empty_shells(subgraphs@),
            try_fold(all, k as int, subgraphs@, step) == try_fold(all, 0, old(subgraphs)@, step),
        decreases count - k,
    {
        let graph = names.key_at(k);
        let i = get_subgraph(subgraphs, names, graph.as_str())?;
        let ghost before = subgraphs.subgraphs;
        complete_subgraph(&mut subgraphs.subgraphs[i], validate)?;
        proof {
            lemma_with_schema(before, subgraphs.subgraphs, i as int);
            lemma_operations_all_edit(
                old(subgraphs)@,
                before.deep_view(),
                i as int,
                subgraphs.subgraphs@[i as int].schema@,
            );
            if all_without_empty_shells(before.deep_view()) {
                assert(before.deep_view()[i as int].schema.no_empty_shells());
                assert forall|j: int| 0 <= j < subgraphs@.len() implies (
                #[trigger] subgraphs@[j]).schema.no_empty_shells() by {
                    if j != i {
                        assert(before.deep_view()[j].schema.no_empty_shells());
                    }
                }
            }
        }
        k += 1;
    }
    Ok(())
}

/// Draws from a supergraph the schemas of the services that were composed
/// into it. Assumes that the supergraph is a valid schema. Extracted schemas
/// are validated unless `validate_extracted_subgraphs` is `Some(false)`.
///
/// What comes back is what `extraction` says. Where it is a registry, the
/// registry is in the order of the names; every schema defines what it
/// mentions and holds no empty type; every type and every member of every
/// type is accounted for in the supergraph; every type has the kind that the
/// supergraph gives it, or is an object that stands for an interface; the
/// services had, when they were populated and before they were pruned, every
/// member that the rules give them; and the service of every value of the
/// graph enumeration has a consistent entity surface, which is exactly the
/// one that it needs where the supergraph has no type `_Entity`.
pub fn extract_subgraphs_from_supergraph(
    supergraph_schema: Schema,
    validate_extracted_subgraphs: Option<bool>,
) -> (r: Result<FederationSubgraphs, FederationError>)
    ensures
        match extraction(supergraph_schema@, validate_extracted_subgraphs) {
            Ok(subgraphs) => r is Ok && r->Ok_0@ == subgraphs && r->Ok_0.wf(),
            Err(e) => r is Err && r->Err_0@ == e,
        },
        r matches Ok(subgraphs) ==> all_closed(subgraphs@),
        r matches Ok(subgraphs) ==> all_without_empty_shells(subgraphs@),
        r matches Ok(subgraphs) ==> all_members_accounted(
            origin_of(supergraph_schema@),
            subgraphs@,
        ),
        r matches Ok(subgraphs) ==> all_accounted(origin_of(supergraph_schema@), subgraphs@),
        r matches Ok(subgraphs) ==> all_kinds_follow(supergraph_schema@, subgraphs@),
        r is Ok ==> placed_when_populated(supergraph_schema@),
        r matches Ok(subgraphs) ==> forall|k: int|
            0 <= k < origin_of(supergraph_schema@).names.len()
                ==> service_consistent(
                origin_of(supergraph_schema@).names,
                subgraphs@,
                (#[trigger] origin_of(supergraph_schema@).names[k]).0,
            ),
        !supergraph_schema@.has_type("_Entity"@) ==> (r matches Ok(subgraphs) ==> forall|k: int|
            0 <= k < origin_of(supergraph_schema@).names.len() ==> service_exact(
                origin_of(supergraph_schema@).names,
                subgraphs@,
                (#[trigger] origin_of(supergraph_schema@).names[k]).0,
            )),
{
    proof {
        lemma_ownership_closure(supergraph_schema@, validate_extracted_subgraphs);
        lemma_type_lineage(supergraph_schema@, validate_extracted_subgraphs);
        lemma_services_consistent(supergraph_schema@, validate_extracted_subgraphs);
        lemma_entity_surface_exact(supergraph_schema@, validate_extracted_subgraphs);
    }
    let validate = match validate_extracted_subgraphs {
        Some(b) => b,
        None => true,
    };
    let specs = validate_supergraph(&supergraph_schema)?;
    let (mut subgraphs, names) = collect_empty_subgraphs(&supergraph_schema, &specs.join)?;
    if specs.join.version.major == 0 && specs.join.version.minor == 1 {
        return Err(
            FederationError::UnsupportedFederationVersion {
                message: String::from_str(
                    "Extracting subgraphs from a supergraph that uses join spec version 0.1 is not yet supported",
                ),
            },
        );
    }
    let ghost seeded = subgraphs@;
    proof {
        lemma_seed(supergraph_schema@, specs.join@);
        lemma_preamble_follows(supergraph_schema@, seeded);
    }
    extract_subgraphs_from_fed_2_supergraph(&supergraph_schema, &mut subgraphs, &names, &specs)?;
    let ghost finished = subgraphs@;
    complete_all(&mut subgraphs, &names, validate)?;
    proof {
        lemma_follow_operations(supergraph_schema@, finished, subgraphs@);
        lemma_same_names_sorted(seeded, subgraphs@);
    }
    Ok(subgraphs)
}

} // verus!
