//! The end of a load: declared component types get their numbers and are recorded.

use vstd::prelude::*;

use crate::schema::{
    field_map, field_offset, law_field_map_holds_the_last_fields, lemma_field_map, max_align,
    total_size, ComponentCloneBehavior, ComponentDescriptor, ComponentId, DynamicComponentSchema,
    SchemaRegistry, StorageType,
};
use crate::staging::{law_names_of_a_load_differ, named_by_position, ComponentBlueprint};

verus! {

/// Whether `schema` is that of the component type that `blueprint` declares.
pub open spec fn built_from(schema: DynamicComponentSchema, blueprint: ComponentBlueprint) -> bool {
    let fields = blueprint.fields@;
    &&& schema.wf()
    &&& schema.name@ == blueprint.name@
    &&& schema.fields@ == field_map(fields, fields.len() as int)
    &&& schema.layout.size == total_size(fields)
    &&& schema.layout.align == max_align(fields, fields.len() as int)
}

/// The numbers that names stand for once the first `n` component types were recorded.
pub open spec fn names_recorded(
    names: Map<Seq<char>, ComponentId>,
    built: Seq<DynamicComponentSchema>,
    ids: Seq<ComponentId>,
    n: int,
) -> Map<Seq<char>, ComponentId>
    decreases n,
{
    if n <= 0 {
        names
    } else {
        names_recorded(names, built, ids, n - 1).insert(built[n - 1].name@, ids[n - 1])
    }
}

/// Whether number `id` is that of one of the first `n` component types, and that one a resource.
pub open spec fn is_new_resource(
    blueprints: Seq<ComponentBlueprint>,
    ids: Seq<ComponentId>,
    n: int,
    id: ComponentId,
) -> bool {
    exists|i: int| 0 <= i < n && #[trigger] ids[i] == id && blueprints[i].is_resource
}

/// Whether the component types with the given numbers and names are all new to a registry, and
/// have different names.
pub open spec fn new_to(
    registry: SchemaRegistry,
    built: Seq<DynamicComponentSchema>,
    ids: Seq<ComponentId>,
) -> bool {
    &&& forall|i: int|
        0 <= i < ids.len() ==> !registry.id_to_schema@.contains_key(#[trigger] ids[i])
    &&& forall|i: int|
        0 <= i < built.len() ==> !registry.name_to_id@.contains_key((#[trigger] built[i]).name@)
    &&& forall|i: int, j: int|
        0 <= i < j < built.len() ==> (#[trigger] built[i]).name@ != (#[trigger] built[j]).name@
}

/// Whether the first `n` component types are recorded in `after`, and it is as `before` otherwise.
pub open spec fn recorded(
    before: SchemaRegistry,
    after: SchemaRegistry,
    built: Seq<DynamicComponentSchema>,
    blueprints: Seq<ComponentBlueprint>,
    ids: Seq<ComponentId>,
    n: int,
) -> bool {
    &&& after.order == before.order
    &&& after.name_to_id@ == names_recorded(before.name_to_id@, built, ids, n)
    &&& forall|i: int|
        0 <= i < n ==> after.id_to_schema@.contains_key(#[trigger] ids[i])
            && after.id_to_schema@[ids[i]] == built[i]
    &&& forall|id: ComponentId|
        !ids.take(n).contains(id) ==> (#[trigger] after.id_to_schema@.contains_key(id)
            <==> before.id_to_schema@.contains_key(id)) && (before.id_to_schema@.contains_key(id)
            ==> after.id_to_schema@[id] == before.id_to_schema@[id])
    &&& forall|id: ComponentId| #[trigger]
        after.resource_ids@.contains(id) <==> before.resource_ids@.contains(id) || is_new_resource(
            blueprints,
            ids,
            n,
            id,
        )
    &&& forall|i: int|
        0 <= i < n && (#[trigger] blueprints[i]).is_resource ==> after.resource_data@.contains_key(
            ids[i],
        ) && after.resource_data@[ids[i]]@ == Seq::new(
            built[i].layout.size as nat,
            |p: int| 0u8,
        )
    &&& forall|id: ComponentId|
        !is_new_resource(blueprints, ids, n, id) ==> (#[trigger] after.resource_data@.contains_key(
            id,
        ) <==> before.resource_data@.contains_key(id)) && (before.resource_data@.contains_key(id)
            ==> after.resource_data@[id] == before.resource_data@[id])
}

/// Recording component types whose names are different keeps the names that are not among theirs.
proof fn lemma_names_recorded(
    names: Map<Seq<char>, ComponentId>,
    built: Seq<DynamicComponentSchema>,
    ids: Seq<ComponentId>,
    n: int,
)
    requires
        0 <= n <= built.len(),
    ensures
        forall|name: Seq<char>| #[trigger]
            names_recorded(names, built, ids, n).contains_key(name) <==> names.contains_key(name)
                || exists|i: int| 0 <= i < n && (#[trigger] built[i]).name@ == name,
    decreases n,
{
    if n > 0 {
        lemma_names_recorded(names, built, ids, n - 1);
        let before = names_recorded(names, built, ids, n - 1);
        assert forall|name: Seq<char>| #[trigger]
            names_recorded(names, built, ids, n).contains_key(name) <==> names.contains_key(name)
                || exists|i: int| 0 <= i < n && (#[trigger] built[i]).name@ == name by {
            assert(before.contains_key(name) <==> names.contains_key(name) || exists|i: int|
                0 <= i < n - 1 && (#[trigger] built[i]).name@ == name);
            assert(built[n - 1].name@ == built[n - 1].name@);
        }
    }
}

impl SchemaRegistry {
    /// Lays out and describes all declared component types.
    pub fn build_all(blueprints: &Vec<ComponentBlueprint>) -> (built: (
        Vec<DynamicComponentSchema>,
        Vec<ComponentDescriptor>,
    ))
        requires
            forall|i: int|
                0 <= i < blueprints@.len() ==> total_size((#[trigger] blueprints@[i]).fields@)
                    <= isize::MAX,
        ensures
            built.0@.len() == blueprints@.len(),
            built.1@.len() == blueprints@.len(),
            forall|i: int|
                0 <= i < blueprints@.len() ==> built_from(#[trigger] built.0@[i], blueprints@[i]),
            forall|i: int|
                0 <= i < blueprints@.len() ==> described(#[trigger] built.1@[i], built.0@[i]),
    {
        let mut schemas: Vec<DynamicComponentSchema> = Vec::new();
        let mut descriptors: Vec<ComponentDescriptor> = Vec::new();
        for i in 0..blueprints.len()
            invariant
                forall|j: int|
                    0 <= j < blueprints@.len() ==> total_size((#[trigger] blueprints@[j]).fields@)
                        <= isize::MAX,
                schemas@.len() == i,
                descriptors@.len() == i,
                forall|j: int| 0 <= j < i ==> built_from(#[trigger] schemas@[j], blueprints@[j]),
                forall|j: int| 0 <= j < i ==> described(#[trigger] descriptors@[j], schemas@[j]),
        {
            let blueprint = &blueprints[i];
            let (schema, descriptor) = SchemaRegistry::build(
                blueprint.name.clone(),
                blueprint.fields.as_slice(),
            );
            let ghost before = schemas@;
            schemas.push(schema);
            descriptors.push(descriptor);
            assert forall|j: int| 0 <= j < i + 1 implies described(
                #[trigger] descriptors@[j],
                schemas@[j],
            ) by {
                if j < i {
                    assert(schemas@[j] == before[j]);
                }
            }
        }
        (schemas, descriptors)
    }

    /// Records all declared component types: type `i` was laid out as `built[i]` and given the
    /// number `ids[i]`, and no two were given the same number.
    pub fn install_all(
        &mut self,
        built: Vec<DynamicComponentSchema>,
        blueprints: &Vec<ComponentBlueprint>,
        ids: &[ComponentId],
    )
        requires
            built@.len() == blueprints@.len(),
            ids@.len() == blueprints@.len(),
            ids@.no_duplicates(),
        ensures
            recorded(
                *old(self),
                *final(self),
                built@,
                blueprints@,
                ids@,
                blueprints@.len() as int,
            ),
            old(self).wf() && (forall|i: int| 0 <= i < built@.len() ==> (#[trigger] built@[i]).wf())
                && (forall|i: int|
                0 <= i < ids@.len() ==> blueprints@[i].is_resource || !old(
                    self,
                ).resource_data@.contains_key(#[trigger] ids@[i])) ==> final(self).wf(),
            old(self).consistent() && new_to(*old(self), built@, ids@) ==> final(self).consistent(),
    {
        let ghost all = built@;
        let ghost start = *self;
        let ghost all_wf = start.wf() && (forall|i: int|
            0 <= i < all.len() ==> (#[trigger] all[i]).wf()) && (forall|i: int|
            0 <= i < ids@.len() ==> blueprints@[i].is_resource
                || !start.resource_data@.contains_key(#[trigger] ids@[i]));
        let ghost all_new = start.consistent() && new_to(start, all, ids@);
        let mut i: usize = 0;
        for schema in it: built
            invariant
                start == *old(self),
                all == built@,
                it.seq() == all,
                i == it.index(),
                all.len() == blueprints@.len(),
                ids@.len() == blueprints@.len(),
                ids@.no_duplicates(),
                all_wf == (start.wf() && (forall|j: int|
                    0 <= j < all.len() ==> (#[trigger] all[j]).wf()) && (forall|j: int|
                    0 <= j < ids@.len() ==> blueprints@[j].is_resource
                        || !start.resource_data@.contains_key(#[trigger] ids@[j]))),
                all_new == (start.consistent() && new_to(start, all, ids@)),
                recorded(start, *self, all, blueprints@, ids@, i as int),
                all_wf ==> self.wf(),
                all_new ==> self.consistent(),
        {
            let ghost n = i as int;
            let ghost before = *self;
            assert(schema == all[n]);
            proof {
                lemma_names_recorded(start.name_to_id@, all, ids@, n);
                assert(!ids@.take(n).contains(ids@[n])) by {
                    if ids@.take(n).contains(ids@[n]) {
                        let j = choose|j: int| 0 <= j < n && ids@.take(n)[j] == ids@[n];
                        assert(ids@[j] == ids@[n]);
                    }
                }
                assert(!is_new_resource(blueprints@, ids@, n, ids@[n]));
                if all_new {
                    assert(!start.name_to_id@.contains_key(all[n].name@));
                    assert(!before.name_to_id@.contains_key(all[n].name@));
                    assert(!before.id_to_schema@.contains_key(ids@[n]));
                }
            }
            self.install(ids[i], schema, blueprints[i].is_resource);
            proof {
                lemma_recorded_one(start, before, *self, all, blueprints@, ids@, n);
            }
            i = i + 1;
        }
    }
}

/// Whether `descriptor` describes the component type of `schema`.
pub open spec fn described(
    descriptor: ComponentDescriptor,
    schema: DynamicComponentSchema,
) -> bool {
    &&& descriptor.name@ == schema.name@
    &&& descriptor.layout == schema.layout
    &&& descriptor.storage_type == StorageType::Table
    &&& descriptor.mutable
    &&& descriptor.clone_behavior == ComponentCloneBehavior::Ignore
}

/// Recording one more component type.
proof fn lemma_recorded_one(
    start: SchemaRegistry,
    before: SchemaRegistry,
    after: SchemaRegistry,
    built: Seq<DynamicComponentSchema>,
    blueprints: Seq<ComponentBlueprint>,
    ids: Seq<ComponentId>,
    n: int,
)
    requires
        0 <= n < blueprints.len(),
        built.len() == blueprints.len(),
        ids.len() == blueprints.len(),
        ids.no_duplicates(),
        recorded(start, before, built, blueprints, ids, n),
        after.order == before.order,
        after.name_to_id@ == before.name_to_id@.insert(built[n].name@, ids[n]),
        after.id_to_schema@ == before.id_to_schema@.insert(ids[n], built[n]),
        if blueprints[n].is_resource {
            &&& after.resource_ids@ == before.resource_ids@.insert(ids[n])
            &&& after.resource_data@ == before.resource_data@.insert(
                ids[n],
                after.resource_data@[ids[n]],
            )
            &&& after.resource_data@[ids[n]]@ == Seq::new(
                built[n].layout.size as nat,
                |i: int| 0u8,
            )
        } else {
            &&& after.resource_ids@ == before.resource_ids@
            &&& after.resource_data@ == before.resource_data@
        },
    ensures
        recorded(start, after, built, blueprints, ids, n + 1),
{
    assert forall|i: int| 0 <= i < n implies #[trigger] ids[i] != ids[n] by {}
    assert forall|id: ComponentId| !ids.take(n + 1).contains(id) implies !ids.take(n).contains(id)
        && id != ids[n] by {
        assert(ids.take(n + 1)[n] == ids[n]);
        if ids.take(n).contains(id) {
            let j = choose|j: int| 0 <= j < n && ids.take(n)[j] == id;
            assert(ids.take(n + 1)[j] == id);
        }
    }
    assert forall|id: ComponentId| #[trigger]
        is_new_resource(blueprints, ids, n + 1, id) <==> is_new_resource(blueprints, ids, n, id)
            || (id == ids[n] && blueprints[n].is_resource) by {
        if is_new_resource(blueprints, ids, n, id) {
            let j = choose|j: int| 0 <= j < n && #[trigger] ids[j] == id && blueprints[j].is_resource;
            assert(ids[j] == id);
        }
        assert(ids[n] == ids[n]);
    }
    assert forall|i: int| 0 <= i < n + 1 && (#[trigger] blueprints[i]).is_resource implies
        after.resource_data@.contains_key(ids[i]) && after.resource_data@[ids[i]]@ == Seq::new(
        built[i].layout.size as nat,
        |p: int| 0u8,
    ) by {
        if i < n {
            assert(ids[i] != ids[n]);
            assert(before.resource_data@.contains_key(ids[i]));
        }
    }
    assert forall|id: ComponentId| !is_new_resource(blueprints, ids, n + 1, id) implies (
    #[trigger] after.resource_data@.contains_key(id) <==> start.resource_data@.contains_key(id)) && (
    start.resource_data@.contains_key(id) ==> after.resource_data@[id] == start.resource_data@[id]) by {
        assert(!is_new_resource(blueprints, ids, n, id));
        assert(before.resource_data@.contains_key(id) <==> start.resource_data@.contains_key(id));
    }
    assert forall|id: ComponentId| !ids.take(n + 1).contains(id) implies (
    #[trigger] after.id_to_schema@.contains_key(id) <==> start.id_to_schema@.contains_key(id)) && (
    start.id_to_schema@.contains_key(id) ==> after.id_to_schema@[id] == start.id_to_schema@[id]) by {
        assert(before.id_to_schema@.contains_key(id) <==> start.id_to_schema@.contains_key(id));
    }
    assert forall|id: ComponentId| #[trigger]
        after.resource_ids@.contains(id) <==> start.resource_ids@.contains(id) || is_new_resource(
            blueprints,
            ids,
            n + 1,
            id,
        ) by {
        assert(before.resource_ids@.contains(id) <==> start.resource_ids@.contains(id)
            || is_new_resource(blueprints, ids, n, id));
    }
}

/// A load into an empty registry leaves names and numbers inverse to each other; the types that
/// scripts declared, and no others, are recorded under their names and numbers; and the resources
/// are those declared as such, each with a zero byte for each byte of its layout.
pub proof fn law_a_load_fills_the_registry(
    before: SchemaRegistry,
    after: SchemaRegistry,
    built: Seq<DynamicComponentSchema>,
    blueprints: Seq<ComponentBlueprint>,
    ids: Seq<ComponentId>,
)
    requires
        before.name_to_id@ == Map::<Seq<char>, ComponentId>::empty(),
        before.id_to_schema@ == Map::<ComponentId, DynamicComponentSchema>::empty(),
        before.resource_ids@ == Set::<ComponentId>::empty(),
        before.resource_data@ == Map::<ComponentId, Vec<u8>>::empty(),
        named_by_position(blueprints),
        built.len() == blueprints.len(),
        forall|i: int| 0 <= i < built.len() ==> built_from(#[trigger] built[i], blueprints[i]),
        ids.len() == blueprints.len(),
        ids.no_duplicates(),
        recorded(before, after, built, blueprints, ids, blueprints.len() as int),
        before.consistent() && new_to(before, built, ids) ==> after.consistent(),
    ensures
        after.consistent(),
        forall|i: int|
            0 <= i < ids.len() ==> {
                &&& after.id_to_schema@.contains_key(#[trigger] ids[i])
                &&& after.id_to_schema@[ids[i]] == built[i]
                &&& after.name_to_id@.contains_key(blueprints[i].name@)
                &&& after.name_to_id@[blueprints[i].name@] == ids[i]
                &&& after.resource_ids@.contains(ids[i]) <==> blueprints[i].is_resource
                &&& after.resource_data@.contains_key(ids[i]) <==> blueprints[i].is_resource
                &&& blueprints[i].is_resource ==> after.resource_data@[ids[i]]@ == Seq::new(
                    total_size(blueprints[i].fields@) as nat,
                    |p: int| 0u8,
                )
            },
        forall|id: ComponentId| #[trigger]
            after.id_to_schema@.contains_key(id) ==> ids.contains(id),
        forall|id: ComponentId| #[trigger] after.resource_ids@.contains(id) ==> ids.contains(id),
{
    let n = blueprints.len() as int;
    assert(ids.take(n) =~= ids);
    assert forall|i: int, j: int| 0 <= i < j < built.len() implies (#[trigger] built[i]).name@ != (
    #[trigger] built[j]).name@ by {
        assert(built_from(built[i], blueprints[i]) && built_from(built[j], blueprints[j]));
        if built[i].name@ == built[j].name@ {
            law_names_of_a_load_differ(blueprints, i, j);
        }
    }
    assert(new_to(before, built, ids));
    assert forall|i: int| 0 <= i < ids.len() implies {
        &&& after.name_to_id@.contains_key(blueprints[i].name@)
        &&& after.name_to_id@[blueprints[i].name@] == #[trigger] ids[i]
        &&& after.resource_ids@.contains(ids[i]) <==> blueprints[i].is_resource
        &&& after.resource_data@.contains_key(ids[i]) <==> blueprints[i].is_resource
    } by {
        assert(after.id_to_schema@.contains_key(ids[i]));
        assert(built_from(built[i], blueprints[i]));
        if is_new_resource(blueprints, ids, n, ids[i]) {
            let j = choose|j: int|
                0 <= j < n && #[trigger] ids[j] == ids[i] && blueprints[j].is_resource;
            assert(i == j);
        }
    }
    assert forall|i: int| 0 <= i < ids.len() && blueprints[i].is_resource implies
        after.resource_data@[#[trigger] ids[i]]@ == Seq::new(
        total_size(blueprints[i].fields@) as nat,
        |p: int| 0u8,
    ) by {
        assert(built_from(built[i], blueprints[i]));
    }
    assert forall|id: ComponentId| #[trigger] after.resource_ids@.contains(id) implies ids.contains(
        id,
    ) by {
        let j = choose|j: int| 0 <= j < n && #[trigger] ids[j] == id && blueprints[j].is_resource;
        assert(ids[j] == id);
    }
}

/// A component type is laid out as it was declared: under its name, with a place for each declared
/// key, where the last field of that key lies, and with the size and alignment of its fields.
pub proof fn law_types_are_built_as_declared(
    schema: DynamicComponentSchema,
    blueprint: ComponentBlueprint,
    k: u32,
)
    requires
        built_from(schema, blueprint),
    ensures
        schema.name@ == blueprint.name@,
        schema.layout.size == total_size(blueprint.fields@),
        schema.layout.align == max_align(blueprint.fields@, blueprint.fields@.len() as int),
        schema.fields@.contains_key(k) <==> exists|i: int|
            0 <= i < blueprint.fields@.len() && (#[trigger] blueprint.fields@[i]).0.raw == k,
        forall|i: int|
            0 <= i < blueprint.fields@.len() && (#[trigger] blueprint.fields@[i]).0.raw == k && (
            forall|j: int|
                i < j < blueprint.fields@.len() ==> (#[trigger] blueprint.fields@[j]).0.raw != k)
                ==> schema.fields@[k].0 == field_offset(blueprint.fields@, i) as usize
                && schema.fields@[k].1 == blueprint.fields@[i].1,
{
    let fields = blueprint.fields@;
    let n = fields.len() as int;
    lemma_field_map(fields, n);
    assert forall|i: int|
        0 <= i < n && (#[trigger] fields[i]).0.raw == k && (forall|j: int|
            i < j < n ==> (#[trigger] fields[j]).0.raw != k) implies schema.fields@[k].0
        == field_offset(fields, i) as usize && schema.fields@[k].1 == fields[i].1 by {
        law_field_map_holds_the_last_fields(fields, i, n);
    }
}

/// The descriptor of a component type has its name and its layout, says that it is kept in tables,
/// that it can be changed, and that copies of an entity leave it out.
pub proof fn law_what_descriptors_say(
    descriptor: ComponentDescriptor,
    schema: DynamicComponentSchema,
)
    requires
        described(descriptor, schema),
    ensures
        descriptor.name@ == schema.name@,
        descriptor.layout.size == schema.layout.size,
        descriptor.layout.align == schema.layout.align,
        descriptor.storage_type is Table,
        descriptor.mutable,
        descriptor.clone_behavior is Ignore,
{
}

/// A name stands for the number of the last type that was recorded under it, and for what it stood
/// for before where there is none.
pub proof fn law_the_last_of_a_name_counts(
    names: Map<Seq<char>, ComponentId>,
    built: Seq<DynamicComponentSchema>,
    ids: Seq<ComponentId>,
    n: int,
    name: Seq<char>,
)
    requires
        0 <= n <= built.len(),
        ids.len() == built.len(),
    ensures
        forall|i: int|
            0 <= i < n && (#[trigger] built[i]).name@ == name && (forall|j: int|
                i < j < n ==> (#[trigger] built[j]).name@ != name) ==> names_recorded(
                names,
                built,
                ids,
                n,
            ).contains_key(name) && names_recorded(names, built, ids, n)[name] == ids[i],
        (forall|i: int| 0 <= i < n ==> (#[trigger] built[i]).name@ != name) ==> (names_recorded(
            names,
            built,
            ids,
            n,
        ).contains_key(name) <==> names.contains_key(name)) && names_recorded(
            names,
            built,
            ids,
            n,
        )[name] == names[name],
    decreases n,
{
    if n > 0 {
        law_the_last_of_a_name_counts(names, built, ids, n - 1, name);
        if built[n - 1].name@ == name {
            assert forall|i: int|
                0 <= i < n && (#[trigger] built[i]).name@ == name && (forall|j: int|
                    i < j < n ==> (#[trigger] built[j]).name@ != name) implies i == n - 1 by {
                if i < n - 1 {
                    assert(built[n - 1].name@ != name);
                }
            }
        }
    }
}

/// A load records each new type under its number, and keeps the types of other numbers; each new
/// resource has a zero for each byte of its layout, and the bytes of other resources stay; nothing
/// stops or starts being a resource but the new resources; and the byte order stays.
pub proof fn law_loads_add_to_the_registry(
    before: SchemaRegistry,
    after: SchemaRegistry,
    built: Seq<DynamicComponentSchema>,
    blueprints: Seq<ComponentBlueprint>,
    ids: Seq<ComponentId>,
)
    requires
        built.len() == blueprints.len(),
        ids.len() == blueprints.len(),
        ids.no_duplicates(),
        recorded(before, after, built, blueprints, ids, blueprints.len() as int),
    ensures
        after.order == before.order,
        forall|i: int|
            0 <= i < ids.len() ==> after.id_to_schema@.contains_key(#[trigger] ids[i])
                && after.id_to_schema@[ids[i]] == built[i],
        forall|id: ComponentId|
            !ids.contains(id) ==> (#[trigger] after.id_to_schema@.contains_key(id)
                <==> before.id_to_schema@.contains_key(id)) && (before.id_to_schema@.contains_key(
                id,
            ) ==> after.id_to_schema@[id] == before.id_to_schema@[id]),
        forall|i: int|
            0 <= i < ids.len() && blueprints[i].is_resource ==> {
                let data = after.resource_data@[#[trigger] ids[i]]@;
                &&& after.resource_ids@.contains(ids[i])
                &&& after.resource_data@.contains_key(ids[i])
                &&& data.len() == built[i].layout.size
                &&& forall|p: int| 0 <= p < data.len() ==> #[trigger] data[p] == 0
            },
        forall|i: int|
            0 <= i < ids.len() && !blueprints[i].is_resource ==> (after.resource_ids@.contains(
                #[trigger] ids[i],
            ) <==> before.resource_ids@.contains(ids[i])) && (after.resource_data@.contains_key(
                ids[i],
            ) <==> before.resource_data@.contains_key(ids[i])),
        forall|id: ComponentId|
            !ids.contains(id) ==> (#[trigger] after.resource_ids@.contains(id)
                <==> before.resource_ids@.contains(id)),
        forall|id: ComponentId|
            !ids.contains(id) ==> (#[trigger] after.resource_data@.contains_key(id)
                <==> before.resource_data@.contains_key(id)) && (before.resource_data@.contains_key(
                id,
            ) ==> after.resource_data@[id] == before.resource_data@[id]),
        forall|i: int|
            0 <= i < built.len() && (forall|j: int|
                i < j < built.len() ==> (#[trigger] built[j]).name@ != built[i].name@)
                ==> after.name_to_id@.contains_key((#[trigger] built[i]).name@)
                && after.name_to_id@[built[i].name@] == ids[i],
        forall|name: Seq<char>|
            !(#[trigger] is_name_of_one(built, name)) ==> (after.name_to_id@.contains_key(name)
                <==> before.name_to_id@.contains_key(name)) && after.name_to_id@[name]
                == before.name_to_id@[name],
{
    let n = blueprints.len() as int;
    assert(ids.take(n) =~= ids);
    assert forall|id: ComponentId| !ids.contains(id) implies !(#[trigger] is_new_resource(
        blueprints,
        ids,
        n,
        id,
    )) by {
        if is_new_resource(blueprints, ids, n, id) {
            let j = choose|j: int| 0 <= j < n && #[trigger] ids[j] == id && blueprints[j].is_resource;
            assert(ids[j] == id);
        }
    }
    assert forall|i: int| 0 <= i < ids.len() implies (is_new_resource(
        blueprints,
        ids,
        n,
        #[trigger] ids[i],
    ) <==> blueprints[i].is_resource) by {
        if is_new_resource(blueprints, ids, n, ids[i]) {
            let j = choose|j: int|
                0 <= j < n && #[trigger] ids[j] == ids[i] && blueprints[j].is_resource;
            assert(i == j);
        }
    }
    assert forall|id: ComponentId| !ids.contains(id) implies (
    #[trigger] after.resource_ids@.contains(id) <==> before.resource_ids@.contains(id)) by {
        assert(!is_new_resource(blueprints, ids, n, id));
    }
    assert forall|id: ComponentId| !ids.contains(id) implies (
    #[trigger] after.resource_data@.contains_key(id) <==> before.resource_data@.contains_key(id)) && (
    before.resource_data@.contains_key(id) ==> after.resource_data@[id]
        == before.resource_data@[id]) by {
        assert(!is_new_resource(blueprints, ids, n, id));
    }
    assert forall|i: int|
        0 <= i < built.len() && (forall|j: int|
            i < j < built.len() ==> (#[trigger] built[j]).name@ != built[i].name@) implies
        after.name_to_id@.contains_key((#[trigger] built[i]).name@)
        && after.name_to_id@[built[i].name@] == ids[i] by {
        law_the_last_of_a_name_counts(before.name_to_id@, built, ids, n, built[i].name@);
    }
    assert forall|name: Seq<char>| !(#[trigger] is_name_of_one(built, name)) implies (
    after.name_to_id@.contains_key(name) <==> before.name_to_id@.contains_key(name))
        && after.name_to_id@[name] == before.name_to_id@[name] by {
        law_the_last_of_a_name_counts(before.name_to_id@, built, ids, n, name);
    }
}

/// Whether one of the component types has the given name.
pub open spec fn is_name_of_one(built: Seq<DynamicComponentSchema>, name: Seq<char>) -> bool {
    exists|i: int| 0 <= i < built.len() && (#[trigger] built[i]).name@ == name
}

/// All declared types are laid out, each as it was declared and at its position, and recorded: each
/// is found under its number, and a resource has a zero for each byte of its layout; types of other
/// numbers stay as they are.
pub proof fn law_building_and_recording(
    registry: &mut SchemaRegistry,
    blueprints: Vec<ComponentBlueprint>,
    built: (Vec<DynamicComponentSchema>, Vec<ComponentDescriptor>),
    ids: &[ComponentId],
    i: int,
    other: ComponentId,
)
    requires
        call_ensures(SchemaRegistry::build_all, (&blueprints,), built),
        call_ensures(SchemaRegistry::install_all, (registry, built.0, &blueprints, ids), ()),
        ids@.len() == blueprints@.len(),
        ids@.no_duplicates(),
        0 <= i < blueprints@.len(),
        !ids@.contains(other),
    ensures
        built.0@.len() == blueprints@.len(),
        built.1@.len() == blueprints@.len(),
        built.1@[i].name@ == blueprints@[i].name@,
        built.1@[i].layout == built.0@[i].layout,
        final(registry).id_to_schema@.contains_key(ids@[i]),
        final(registry).id_to_schema@[ids@[i]] == built.0@[i],
        built.0@[i].name@ == blueprints@[i].name@,
        built.0@[i].layout.size == total_size(blueprints@[i].fields@),
        built.0@[i].layout.align == max_align(
            blueprints@[i].fields@,
            blueprints@[i].fields@.len() as int,
        ),
        blueprints@[i].is_resource ==> {
            let data = final(registry).resource_data@[ids@[i]]@;
            &&& final(registry).resource_ids@.contains(ids@[i])
            &&& final(registry).resource_data@.contains_key(ids@[i])
            &&& data.len() == built.0@[i].layout.size
            &&& forall|p: int| 0 <= p < data.len() ==> #[trigger] data[p] == 0
        },
        !blueprints@[i].is_resource ==> (final(registry).resource_ids@.contains(ids@[i]) <==> old(
            registry,
        ).resource_ids@.contains(ids@[i])),
        final(registry).id_to_schema@.contains_key(other) <==> old(
            registry,
        ).id_to_schema@.contains_key(other),
        old(registry).id_to_schema@.contains_key(other) ==> final(registry).id_to_schema@[other]
            == old(registry).id_to_schema@[other],
        final(registry).resource_ids@.contains(other) <==> old(registry).resource_ids@.contains(
            other,
        ),
        final(registry).order == old(registry).order,
{
    assert(built_from(built.0@[i], blueprints@[i]));
    assert(described(built.1@[i], built.0@[i]));
    law_loads_add_to_the_registry(
        *old(registry),
        *final(registry),
        built.0@,
        blueprints@,
        ids@,
    );
}

} // verus!
