//! Schemas of components that scripts declare.

use std::collections::{HashMap, HashSet};

use vstd::arithmetic::power2::is_pow2;
use vstd::hash_map::StringHashMap;
use vstd::prelude::*;

use crate::bytes::{is_native, native_order, zeroed, ByteOrder};
use crate::layout::{
    align_up, alignments_valid, law_round_up_is_least, learn_alignments, lemma_field_align,
    lemma_round_up, round_up, small_power, Layout, LuauFieldType,
};
use crate::pool::StrKey;

verus! {

/// Number under which the entity component system knows a component type.
pub type ComponentId = usize;

/// Where the components of a type are kept.
#[derive(Clone, Copy, Debug, PartialEq, Eq, Structural)]
pub enum StorageType {
    Table,
    SparseSet,
}

/// What happens to a component when its entity is cloned.
#[derive(Clone, Copy, Debug, PartialEq, Eq, Structural)]
pub enum ComponentCloneBehavior {
    Default,
    Ignore,
}

/// What the entity component system is told of a component type. Components of such a type are
/// plain bytes, which need no destructor.
#[derive(Debug, PartialEq, Eq)]
pub struct ComponentDescriptor {
    pub name: String,
    pub storage_type: StorageType,
    pub layout: Layout,
    pub mutable: bool,
    pub clone_behavior: ComponentCloneBehavior,
}

/// Where the fields of a component lie: for each field name's key, its offset and its kind.
#[derive(Debug)]
pub struct DynamicComponentSchema {
    pub name: String,
    pub fields: HashMap<u32, (usize, LuauFieldType)>,
    pub layout: Layout,
}

/// A field map that fits in `size` bytes, with fields aligned and apart.
pub open spec fn fields_fit(fields: Map<u32, (usize, LuauFieldType)>, size: int) -> bool {
    &&& forall|k: u32| #[trigger]
        fields.contains_key(k) ==> fields[k].0 + fields[k].1.spec_size() <= size && fields[k].0
            as int % fields[k].1.spec_align() as int == 0
    &&& forall|j: u32, k: u32|
        #![trigger fields.contains_key(j), fields.contains_key(k)]
        fields.contains_key(j) && fields.contains_key(k) && j != k ==> fields[j].0
            + fields[j].1.spec_size() <= fields[k].0 || fields[k].0 + fields[k].1.spec_size()
            <= fields[j].0
}

impl DynamicComponentSchema {
    /// The fields are aligned, do not overlap and lie within the component.
    pub open spec fn wf(self) -> bool {
        &&& self.layout.valid()
        &&& 1 <= self.layout.size <= isize::MAX
        &&& fields_fit(self.fields@, self.layout.size as int)
    }
}

/// Where the first `n` fields end.
pub open spec fn end_offset(fields: Seq<(StrKey, LuauFieldType)>, n: int) -> int
    decreases n, 1int,
{
    if n <= 0 {
        0
    } else {
        field_offset(fields, n - 1) + fields[n - 1].1.spec_size()
    }
}

/// Where field `i` starts: at the first aligned offset behind the fields before it.
pub open spec fn field_offset(fields: Seq<(StrKey, LuauFieldType)>, i: int) -> int
    decreases i + 1, 0int,
    when i >= 0
{
    round_up(end_offset(fields, i), fields[i].1.spec_align() as int)
}

/// The largest alignment among the first `n` fields, and 1 where there is none.
pub open spec fn max_align(fields: Seq<(StrKey, LuauFieldType)>, n: int) -> int
    decreases n,
{
    if n <= 0 {
        1
    } else {
        let before = max_align(fields, n - 1);
        let align = fields[n - 1].1.spec_align() as int;
        if align > before {
            align
        } else {
            before
        }
    }
}

/// Size of a component with these fields: padded to its alignment, and never zero.
pub open spec fn total_size(fields: Seq<(StrKey, LuauFieldType)>) -> int {
    let padded = round_up(
        end_offset(fields, fields.len() as int),
        max_align(fields, fields.len() as int),
    );
    if padded < 1 {
        1
    } else {
        padded
    }
}

/// Offset and kind of the first `n` fields, by key: of fields with one key the last counts.
pub open spec fn field_map(fields: Seq<(StrKey, LuauFieldType)>, n: int) -> Map<
    u32,
    (usize, LuauFieldType),
>
    decreases n,
{
    if n <= 0 {
        Map::empty()
    } else {
        field_map(fields, n - 1).insert(
            fields[n - 1].0.raw,
            (field_offset(fields, n - 1) as usize, fields[n - 1].1),
        )
    }
}

/// Fields follow each other: offsets and ends only grow.
pub proof fn lemma_offsets_grow(fields: Seq<(StrKey, LuauFieldType)>, i: int, j: int)
    requires
        alignments_valid(),
        0 <= i <= j <= fields.len(),
    ensures
        0 <= end_offset(fields, i) <= end_offset(fields, j),
        i < fields.len() ==> end_offset(fields, i) <= field_offset(fields, i) < end_offset(fields, i)
            + 8,
        i < j ==> field_offset(fields, i) + fields[i].1.spec_size() <= end_offset(fields, j),
    decreases j,
{
    if i < fields.len() {
        lemma_field_align(fields[i].1);
        lemma_round_up(end_offset(fields, i), fields[i].1.spec_align() as int);
    }
    if i < j {
        lemma_offsets_grow(fields, i, j - 1);
        lemma_field_align(fields[j - 1].1);
        lemma_round_up(end_offset(fields, j - 1), fields[j - 1].1.spec_align() as int);
    } else if i > 0 {
        lemma_offsets_grow(fields, i - 1, i - 1);
        lemma_field_align(fields[i - 1].1);
        lemma_round_up(end_offset(fields, i - 1), fields[i - 1].1.spec_align() as int);
    }
}

/// The largest alignment is that of a field, or 1, and no field's is larger.
pub proof fn lemma_max_align(fields: Seq<(StrKey, LuauFieldType)>, n: int)
    requires
        alignments_valid(),
        0 <= n <= fields.len(),
    ensures
        1 <= max_align(fields, n) <= 8,
        is_pow2(max_align(fields, n)),
        small_power(max_align(fields, n)),
        forall|i: int|
            0 <= i < n ==> (#[trigger] fields[i]).1.spec_align() <= max_align(fields, n),
    decreases n,
{
    if n > 0 {
        lemma_max_align(fields, n - 1);
        lemma_field_align(fields[n - 1].1);
    } else {
        lemma_field_align(LuauFieldType::Bool);
    }
}

/// Each entry of the field map is one of the fields, and each field's key is in the map.
pub proof fn lemma_field_map(fields: Seq<(StrKey, LuauFieldType)>, n: int)
    requires
        0 <= n <= fields.len(),
    ensures
        forall|k: u32| #[trigger]
            field_map(fields, n).contains_key(k) ==> exists|i: int|
                0 <= i < n && (#[trigger] fields[i]).0.raw == k && field_map(fields, n)[k] == (
                field_offset(fields, i) as usize,
                fields[i].1,
            ),
        forall|i: int|
            0 <= i < n ==> field_map(fields, n).contains_key((#[trigger] fields[i]).0.raw),
    decreases n,
{
    if n > 0 {
        lemma_field_map(fields, n - 1);
        let last = fields[n - 1];
        assert forall|k: u32| #[trigger] field_map(fields, n).contains_key(k) implies exists|i: int|
            0 <= i < n && (#[trigger] fields[i]).0.raw == k && field_map(fields, n)[k] == (
            field_offset(fields, i) as usize,
            fields[i].1,
        ) by {
            if k == last.0.raw {
                assert(fields[n - 1].0.raw == k);
            } else {
                assert(field_map(fields, n - 1).contains_key(k));
                let i = choose|i: int|
                    0 <= i < n - 1 && (#[trigger] fields[i]).0.raw == k && field_map(fields, n - 1)[k]
                        == (field_offset(fields, i) as usize, fields[i].1);
                assert(fields[i].0.raw == k);
            }
        }
    }
}

/// The fields of a component that fits in memory are aligned, do not overlap, and lie within it.
pub proof fn law_fields_fit(fields: Seq<(StrKey, LuauFieldType)>)
    requires
        alignments_valid(),
        total_size(fields) <= isize::MAX,
    ensures
        fields_fit(field_map(fields, fields.len() as int), total_size(fields)),
{
    let n = fields.len() as int;
    let map = field_map(fields, n);
    lemma_max_align(fields, n);
    lemma_offsets_grow(fields, n, n);
    lemma_round_up(end_offset(fields, n), max_align(fields, n));
    lemma_field_map(fields, n);
    assert forall|i: int| 0 <= i < n implies 0 <= #[trigger] field_offset(fields, i)
        && field_offset(fields, i) + fields[i].1.spec_size() <= total_size(fields) && field_offset(
        fields,
        i,
    ) % fields[i].1.spec_align() as int == 0 by {
        lemma_offsets_grow(fields, i, n);
        lemma_field_align(fields[i].1);
        lemma_round_up(end_offset(fields, i), fields[i].1.spec_align() as int);
    }
    assert forall|k: u32| #[trigger] map.contains_key(k) implies map[k].0 + map[k].1.spec_size()
        <= total_size(fields) && map[k].0 as int % map[k].1.spec_align() as int == 0 by {
        let i = choose|i: int|
            0 <= i < n && (#[trigger] fields[i]).0.raw == k && map[k] == (
            field_offset(fields, i) as usize,
            fields[i].1,
            );
        assert(field_offset(fields, i) >= 0);
    }
    assert forall|j: u32, k: u32|
        #![trigger map.contains_key(j), map.contains_key(k)]
        map.contains_key(j) && map.contains_key(k) && j != k implies map[j].0
        + map[j].1.spec_size() <= map[k].0 || map[k].0 + map[k].1.spec_size() <= map[j].0 by {
        let a = choose|i: int|
            0 <= i < n && (#[trigger] fields[i]).0.raw == j && map[j] == (
            field_offset(fields, i) as usize,
            fields[i].1,
            );
        let b = choose|i: int|
            0 <= i < n && (#[trigger] fields[i]).0.raw == k && map[k] == (
            field_offset(fields, i) as usize,
            fields[i].1,
            );
        assert(field_offset(fields, a) >= 0 && field_offset(fields, b) >= 0);
        if a < b {
            lemma_offsets_grow(fields, a, b);
            lemma_offsets_grow(fields, b, b);
        } else {
            lemma_offsets_grow(fields, b, a);
            lemma_offsets_grow(fields, a, a);
        }
    }
}

/// The component types that scripts declared, and the bytes of the resources among them.
pub struct SchemaRegistry {
    pub name_to_id: StringHashMap<ComponentId>,
    pub id_to_schema: HashMap<ComponentId, DynamicComponentSchema>,
    pub resource_ids: HashSet<ComponentId>,
    pub resource_data: HashMap<ComponentId, Vec<u8>>,
    /// The order in which components and resources keep the bytes of numbers.
    pub order: ByteOrder,
}

impl Default for SchemaRegistry {
    fn default() -> (registry: Self)
        ensures
            registry.wf(),
            registry.consistent(),
            is_native(registry.order),
            registry.name_to_id@ == Map::<Seq<char>, ComponentId>::empty(),
            registry.id_to_schema@ == Map::<ComponentId, DynamicComponentSchema>::empty(),
            registry.resource_ids@ == Set::<ComponentId>::empty(),
            registry.resource_data@ == Map::<ComponentId, Vec<u8>>::empty(),
    {
        SchemaRegistry {
            name_to_id: StringHashMap::new(),
            id_to_schema: HashMap::new(),
            resource_ids: HashSet::new(),
            resource_data: HashMap::new(),
            order: native_order(),
        }
    }
}

impl SchemaRegistry {
    /// The schemas are well formed, and each resource has as many bytes as its schema says.
    pub open spec fn wf(self) -> bool {
        &&& forall|id: ComponentId| #[trigger]
            self.id_to_schema@.contains_key(id) ==> self.id_to_schema@[id].wf()
        &&& forall|id: ComponentId| #[trigger]
            self.resource_data@.contains_key(id) && self.id_to_schema@.contains_key(id)
                ==> self.resource_data@[id]@.len() == self.id_to_schema@[id].layout.size
    }

    /// Names and numbers are inverse to each other, and the resources are the component types that
    /// have bytes here.
    pub open spec fn consistent(self) -> bool {
        &&& forall|name: Seq<char>| #[trigger]
            self.name_to_id@.contains_key(name) ==> self.id_to_schema@.contains_key(
                self.name_to_id@[name],
            ) && self.id_to_schema@[self.name_to_id@[name]].name@ == name
        &&& forall|id: ComponentId| #[trigger]
            self.id_to_schema@.contains_key(id) ==> self.name_to_id@.contains_key(
                self.id_to_schema@[id].name@,
            ) && self.name_to_id@[self.id_to_schema@[id].name@] == id
        &&& forall|id: ComponentId| #[trigger]
            self.resource_data@.contains_key(id) <==> self.resource_ids@.contains(id)
        &&& forall|id: ComponentId| #[trigger]
            self.resource_data@.contains_key(id) ==> self.id_to_schema@.contains_key(id)
    }

    /// Whether a component with these fields has a valid layout, which `build` asks for.
    pub fn layout_fits(fields: &[(StrKey, LuauFieldType)]) -> (fits: bool)
        ensures
            fits == (total_size(fields@) <= isize::MAX),
    {
        let limit: usize = isize::MAX as usize;
        let mut offset: usize = 0;
        let mut align: usize = 1;
        let mut i: usize = 0;
        learn_alignments();
        proof {
            lemma_max_align(fields@, fields@.len() as int);
            lemma_offsets_grow(fields@, fields@.len() as int, fields@.len() as int);
            lemma_round_up(
                end_offset(fields@, fields@.len() as int),
                max_align(fields@, fields@.len() as int),
            );
        }
        while i < fields.len()
            invariant
                i <= fields.len(),
                alignments_valid(),
                limit == isize::MAX,
                offset == end_offset(fields@, i as int) <= limit,
                align == max_align(fields@, i as int),
                total_size(fields@) >= end_offset(fields@, fields@.len() as int),
            decreases fields.len() - i,
        {
            let (_, ft) = fields[i];
            proof {
                lemma_offsets_grow(fields@, i as int, fields@.len() as int);
                lemma_offsets_grow(fields@, i + 1, fields@.len() as int);
                lemma_field_align(ft);
            }
            if let LuauFieldType::Buffer(n) = ft {
                if n > limit {
                    return false;
                }
            }
            let layout = ft.layout();
            let start: usize = align_up(offset, layout.align);
            if start > limit || layout.size > limit - start {
                return false;
            }
            offset = start + layout.size;
            if layout.align > align {
                align = layout.align;
            }
            i = i + 1;
        }
        let padded: usize = align_up(offset, align);
        padded <= limit
    }

    /// Lays out a component with the given fields, in their order, and describes it.
    pub fn build(name: String, fields: &[(StrKey, LuauFieldType)]) -> (built: (
        DynamicComponentSchema,
        ComponentDescriptor,
    ))
        requires
            total_size(fields@) <= isize::MAX,
        ensures
            built.0.wf(),
            built.0.name@ == name@,
            built.0.fields@ == field_map(fields@, fields@.len() as int),
            built.0.layout.size == total_size(fields@),
            built.0.layout.align == max_align(fields@, fields@.len() as int),
            built.1.name@ == name@,
            built.1.layout == built.0.layout,
            built.1.storage_type == StorageType::Table,
            built.1.mutable,
            built.1.clone_behavior == ComponentCloneBehavior::Ignore,
    {
        let mut offset: usize = 0;
        let mut field_offsets: HashMap<u32, (usize, LuauFieldType)> = HashMap::new();
        let mut i: usize = 0;
        learn_alignments();
        proof {
            lemma_max_align(fields@, fields@.len() as int);
            lemma_offsets_grow(fields@, fields@.len() as int, fields@.len() as int);
            lemma_round_up(
                end_offset(fields@, fields@.len() as int),
                max_align(fields@, fields@.len() as int),
            );
        }
        while i < fields.len()
            invariant
                i <= fields.len(),
                alignments_valid(),
                offset == end_offset(fields@, i as int),
                field_offsets@ == field_map(fields@, i as int),
                end_offset(fields@, fields@.len() as int) <= isize::MAX,
            decreases fields.len() - i,
        {
            let (spur, ft) = fields[i];
            proof {
                lemma_offsets_grow(fields@, i as int, fields@.len() as int);
                lemma_offsets_grow(fields@, i + 1, fields@.len() as int);
                lemma_field_align(ft);
            }
            let layout = ft.layout();
            offset = align_up(offset, layout.align);
            field_offsets.insert(spur.raw, (offset, ft));
            offset = offset + layout.size;
            i = i + 1;
        }
        let mut align: usize = 1;
        let mut j: usize = 0;
        while j < fields.len()
            invariant
                j <= fields.len(),
                alignments_valid(),
                align == max_align(fields@, j as int),
                end_offset(fields@, fields@.len() as int) <= isize::MAX,
            decreases fields.len() - j,
        {
            let (_, ft) = fields[j];
            proof {
                lemma_offsets_grow(fields@, j as int, fields@.len() as int);
                lemma_offsets_grow(fields@, j + 1, fields@.len() as int);
            }
            let layout = ft.layout();
            if layout.align > align {
                align = layout.align;
            }
            j = j + 1;
        }
        let padded: usize = align_up(offset, align);
        let size: usize = if padded < 1 {
            1
        } else {
            padded
        };
        let layout = Layout { size, align };
        proof {
            law_fields_fit(fields@);
            law_component_is_padded(fields@);
        }
        let schema = DynamicComponentSchema { name: name.clone(), fields: field_offsets, layout };
        let descriptor = ComponentDescriptor {
            name,
            storage_type: StorageType::Table,
            layout,
            mutable: true,
            clone_behavior: ComponentCloneBehavior::Ignore,
        };
        (schema, descriptor)
    }

    /// Records a schema under its name and its number.
    pub fn insert(&mut self, id: ComponentId, schema: DynamicComponentSchema)
        ensures
            final(self).name_to_id@ == old(self).name_to_id@.insert(schema.name@, id),
            final(self).id_to_schema@ == old(self).id_to_schema@.insert(id, schema),
            final(self).resource_ids@ == old(self).resource_ids@,
            final(self).resource_data@ == old(self).resource_data@,
            final(self).order == old(self).order,
            old(self).wf() && schema.wf() && (old(self).resource_data@.contains_key(id) ==> old(
                self,
            ).resource_data@[id]@.len() == schema.layout.size) ==> final(self).wf(),
    {
        self.name_to_id.insert(schema.name.clone(), id);
        self.id_to_schema.insert(id, schema);
    }

    /// Records a component type under the number that it was given. A resource type also gets its
    /// one value, whose bytes are all zero.
    pub fn install(&mut self, id: ComponentId, schema: DynamicComponentSchema, is_resource: bool)
        ensures
            final(self).name_to_id@ == old(self).name_to_id@.insert(schema.name@, id),
            final(self).id_to_schema@ == old(self).id_to_schema@.insert(id, schema),
            final(self).order == old(self).order,
            if is_resource {
                &&& final(self).resource_ids@ == old(self).resource_ids@.insert(id)
                &&& final(self).resource_data@ == old(self).resource_data@.insert(
                    id,
                    final(self).resource_data@[id],
                )
                &&& final(self).resource_data@[id]@ == Seq::new(
                    schema.layout.size as nat,
                    |i: int| 0u8,
                )
            } else {
                &&& final(self).resource_ids@ == old(self).resource_ids@
                &&& final(self).resource_data@ == old(self).resource_data@
            },
            old(self).wf() && schema.wf() && (is_resource || !old(self).resource_data@.contains_key(
                id,
            )) ==> final(self).wf(),
            old(self).consistent() && !old(self).id_to_schema@.contains_key(id) && !old(
                self,
            ).name_to_id@.contains_key(schema.name@) ==> final(self).consistent(),
    {
        if is_resource {
            let data = zeroed(schema.layout.size);
            self.resource_ids.insert(id);
            self.resource_data.insert(id, data);
        }
        self.insert(id, schema);
    }
}

/// Fields that need alignment take bytes.
proof fn lemma_aligned_fields_take_bytes(fields: Seq<(StrKey, LuauFieldType)>, n: int)
    requires
        alignments_valid(),
        0 <= n <= fields.len(),
    ensures
        max_align(fields, n) > 1 ==> end_offset(fields, n) > 0,
    decreases n,
{
    if n > 0 {
        lemma_aligned_fields_take_bytes(fields, n - 1);
        lemma_offsets_grow(fields, n - 1, n);
    }
}

/// A component is at least one byte long, its size is a multiple of its alignment, and each
/// field's alignment divides that of the component.
pub proof fn law_component_is_padded(fields: Seq<(StrKey, LuauFieldType)>)
    requires
        alignments_valid(),
    ensures
        total_size(fields) >= 1,
        total_size(fields) % max_align(fields, fields.len() as int) == 0,
        round_up(total_size(fields), max_align(fields, fields.len() as int)) == total_size(fields),
        forall|i: int|
            0 <= i < fields.len() ==> max_align(fields, fields.len() as int) % (
            #[trigger] fields[i]).1.spec_align() as int == 0,
{
    let n = fields.len() as int;
    let align = max_align(fields, n);
    let end = end_offset(fields, n);
    lemma_max_align(fields, n);
    lemma_aligned_fields_take_bytes(fields, n);
    lemma_offsets_grow(fields, n, n);
    lemma_round_up(end, align);
    lemma_round_up(total_size(fields), align);
    law_round_up_is_least(total_size(fields), align, total_size(fields));
    assert forall|i: int| 0 <= i < n implies align % (#[trigger] fields[i]).1.spec_align() as int
        == 0 by {
        let a = fields[i].1.spec_align() as int;
        lemma_field_align(fields[i].1);
        assert(1int % 1 == 0 && 2int % 1 == 0 && 4int % 1 == 0 && 8int % 1 == 0 && 2int % 2 == 0
            && 4int % 2 == 0 && 8int % 2 == 0 && 4int % 4 == 0 && 8int % 4 == 0 && 8int % 8 == 0);
    }
}

/// Each field lies as early as it can: the first at the start, and each other one at the first
/// multiple of its alignment behind the field before it.
pub proof fn law_fields_are_packed(fields: Seq<(StrKey, LuauFieldType)>, i: int)
    requires
        alignments_valid(),
        0 <= i < fields.len(),
    ensures
        field_offset(fields, 0) == 0,
        field_offset(fields, i) % fields[i].1.spec_align() as int == 0,
        i > 0 ==> field_offset(fields, i - 1) + fields[i - 1].1.spec_size() <= field_offset(
            fields,
            i,
        ),
        forall|m: int| #[trigger]
            is_multiple(m, fields[i].1.spec_align() as int) && (if i == 0 {
                0
            } else {
                field_offset(fields, i - 1) + fields[i - 1].1.spec_size()
            }) <= m ==> field_offset(fields, i) <= m,
{
    let align = fields[i].1.spec_align() as int;
    lemma_field_align(fields[0].1);
    lemma_field_align(fields[i].1);
    lemma_round_up(end_offset(fields, i), align);
    lemma_round_up(0, fields[0].1.spec_align() as int);
    law_round_up_is_least(0, fields[0].1.spec_align() as int, 0);
    assert forall|m: int| #[trigger] is_multiple(m, align) && end_offset(fields, i) <= m implies
        field_offset(fields, i) <= m by {
        law_round_up_is_least(end_offset(fields, i), align, m);
    }
}

/// Whether `m` is a multiple of `align`.
pub open spec fn is_multiple(m: int, align: int) -> bool {
    m % align == 0
}

/// A component is as small as it can be: aligned as its most demanding field, or as a byte where it
/// has none, and as long as the first multiple of that alignment that holds its fields, but at least
/// one byte.
pub proof fn law_components_are_packed(fields: Seq<(StrKey, LuauFieldType)>)
    requires
        alignments_valid(),
    ensures
        ({
            let n = fields.len() as int;
            let align = max_align(fields, n);
            let end = if n == 0 {
                0
            } else {
                field_offset(fields, n - 1) + fields[n - 1].1.spec_size()
            };
            &&& forall|i: int|
                0 <= i < n ==> (#[trigger] fields[i]).1.spec_align() as int <= align
            &&& align == 1 || exists|i: int|
                0 <= i < n && (#[trigger] fields[i]).1.spec_align() as int == align
            &&& total_size(fields) >= end
            &&& total_size(fields) >= 1
            &&& total_size(fields) % align == 0
            &&& forall|m: int| #[trigger]
                is_multiple(m, align) && m >= end && m >= 1 ==> total_size(fields) <= m
        }),
{
    let n = fields.len() as int;
    let align = max_align(fields, n);
    let end = end_offset(fields, n);
    lemma_max_align(fields, n);
    lemma_max_align_is_one_of_them(fields, n);
    lemma_offsets_grow(fields, n, n);
    lemma_round_up(end, align);
    law_component_is_padded(fields);
    assert forall|m: int| #[trigger] is_multiple(m, align) && m >= end && m >= 1 implies total_size(
        fields,
    ) <= m by {
        law_round_up_is_least(end, align, m);
    }
}

/// The largest alignment is one, or that of a field.
proof fn lemma_max_align_is_one_of_them(fields: Seq<(StrKey, LuauFieldType)>, n: int)
    requires
        0 <= n <= fields.len(),
    ensures
        max_align(fields, n) == 1 || exists|i: int|
            0 <= i < n && (#[trigger] fields[i]).1.spec_align() as int == max_align(fields, n),
    decreases n,
{
    if n > 0 {
        lemma_max_align_is_one_of_them(fields, n - 1);
        if max_align(fields, n) == max_align(fields, n - 1) {
            if max_align(fields, n) != 1 {
                let i = choose|i: int|
                    0 <= i < n - 1 && (#[trigger] fields[i]).1.spec_align() as int == max_align(
                        fields,
                        n - 1,
                    );
                assert(fields[i].1.spec_align() as int == max_align(fields, n));
            }
        } else {
            assert(fields[n - 1].1.spec_align() as int == max_align(fields, n));
        }
    }
}

/// The field map holds each key's last field, with its offset and its kind.
pub proof fn law_field_map_holds_the_last_fields(
    fields: Seq<(StrKey, LuauFieldType)>,
    i: int,
    n: int,
)
    requires
        0 <= i < n <= fields.len(),
        forall|j: int| i < j < n ==> (#[trigger] fields[j]).0.raw != fields[i].0.raw,
    ensures
        field_map(fields, n).contains_key(fields[i].0.raw),
        field_map(fields, n)[fields[i].0.raw].0 == field_offset(fields, i) as usize,
        field_map(fields, n)[fields[i].0.raw].1 == fields[i].1,
    decreases n,
{
    if i < n - 1 {
        law_field_map_holds_the_last_fields(fields, i, n - 1);
        assert(fields[n - 1].0.raw != fields[i].0.raw);
    }
}

/// The field map holds nothing but fields.
pub proof fn law_field_map_holds_fields_alone(
    fields: Seq<(StrKey, LuauFieldType)>,
    n: int,
    k: u32,
)
    requires
        0 <= n <= fields.len(),
        field_map(fields, n).contains_key(k),
    ensures
        exists|i: int| 0 <= i < n && (#[trigger] fields[i]).0.raw == k,
{
    lemma_field_map(fields, n);
}

/// Each field of a well formed component type lies within it, at a multiple of its alignment, and no
/// byte belongs to two fields.
pub proof fn law_fields_lie_apart(schema: DynamicComponentSchema, j: u32, k: u32, p: int)
    requires
        schema.wf(),
        schema.fields@.contains_key(j),
        schema.fields@.contains_key(k),
        schema.fields@[j].0 <= p < schema.fields@[j].0 + schema.fields@[j].1.spec_size(),
    ensures
        0 <= p < schema.layout.size <= isize::MAX,
        schema.fields@[j].0 as int % schema.fields@[j].1.spec_align() as int == 0,
        schema.fields@[k].0 <= p < schema.fields@[k].0 + schema.fields@[k].1.spec_size() ==> j == k,
{
}

/// In a consistent registry a name stands for a number just where a type of that name is recorded
/// under the number; and what has bytes is what is a resource, and is recorded.
pub proof fn law_names_and_numbers_agree(registry: SchemaRegistry, name: Seq<char>, id: ComponentId)
    requires
        registry.consistent(),
    ensures
        registry.name_to_id@.contains_key(name) && registry.name_to_id@[name] == id
            <==> registry.id_to_schema@.contains_key(id) && registry.id_to_schema@[id].name@ == name,
        registry.resource_ids@.contains(id) <==> registry.resource_data@.contains_key(id),
        registry.resource_ids@.contains(id) ==> registry.id_to_schema@.contains_key(id),
{
}

/// A component type is laid out with each field as early as its alignment allows behind the one
/// before it, and is as small and as little aligned as its fields allow; its descriptor has its name
/// and its layout.
pub proof fn law_building_a_type(
    name: String,
    fields: &[(StrKey, LuauFieldType)],
    built: (DynamicComponentSchema, ComponentDescriptor),
    i: int,
    m: int,
)
    requires
        alignments_valid(),
        total_size(fields@) <= isize::MAX,
        call_ensures(SchemaRegistry::build, (name, fields), built),
        0 <= i < fields@.len(),
        forall|j: int| i < j < fields@.len() ==> (#[trigger] fields@[j]).0.raw != fields@[i].0.raw,
    ensures
        built.0.name@ == name@,
        built.1.name@ == name@,
        built.1.layout == built.0.layout,
        built.1.storage_type is Table,
        built.1.mutable,
        built.1.clone_behavior is Ignore,
        built.0.fields@.contains_key(fields@[i].0.raw),
        built.0.fields@[fields@[i].0.raw].1 == fields@[i].1,
        ({
            let at = built.0.fields@[fields@[i].0.raw].0 as int;
            let align = fields@[i].1.spec_align() as int;
            let end = if i == 0 {
                0
            } else {
                field_offset(fields@, i - 1) + fields@[i - 1].1.spec_size()
            };
            &&& at == field_offset(fields@, i)
            &&& at % align == 0
            &&& at >= end
            &&& is_multiple(m, align) && m >= end ==> at <= m
        }),
        ({
            let n = fields@.len() as int;
            let end = field_offset(fields@, n - 1) + fields@[n - 1].1.spec_size();
            let align = built.0.layout.align as int;
            &&& fields@[i].1.spec_align() <= align
            &&& align == 1 || exists|j: int|
                0 <= j < n && (#[trigger] fields@[j]).1.spec_align() as int == align
            &&& built.0.layout.size as int % align == 0
            &&& built.0.layout.size >= end
            &&& built.0.layout.size >= 1
            &&& is_multiple(m, align) && m >= end && m >= 1 ==> built.0.layout.size <= m
        }),
{
    let n = fields@.len() as int;
    law_fields_are_packed(fields@, i);
    law_components_are_packed(fields@);
    law_field_map_holds_the_last_fields(fields@, i, n);
    lemma_offsets_grow(fields@, i, n);
    lemma_offsets_grow(fields@, n, n);
    lemma_max_align(fields@, n);
    lemma_round_up(end_offset(fields@, n), max_align(fields@, n));
}

/// A component type that is recorded is found under its number, and its number under its name; as a
/// resource it also has a zero for each byte of its layout. Other numbers and names stay as they are.
pub proof fn law_recording_a_type(
    registry: &mut SchemaRegistry,
    id: ComponentId,
    schema: DynamicComponentSchema,
    is_resource: bool,
    other: ComponentId,
    name: Seq<char>,
)
    requires
        call_ensures(SchemaRegistry::install, (registry, id, schema, is_resource), ()),
        other != id,
        name != schema.name@,
    ensures
        final(registry).id_to_schema@.contains_key(id),
        final(registry).id_to_schema@[id] == schema,
        final(registry).name_to_id@.contains_key(schema.name@),
        final(registry).name_to_id@[schema.name@] == id,
        final(registry).order == old(registry).order,
        is_resource ==> {
            let data = final(registry).resource_data@[id]@;
            &&& final(registry).resource_ids@.contains(id)
            &&& final(registry).resource_data@.contains_key(id)
            &&& data.len() == schema.layout.size
            &&& forall|p: int| 0 <= p < data.len() ==> #[trigger] data[p] == 0
        },
        !is_resource ==> (final(registry).resource_ids@.contains(id) <==> old(
            registry,
        ).resource_ids@.contains(id)) && (final(registry).resource_data@.contains_key(id) <==> old(
            registry,
        ).resource_data@.contains_key(id)),
        final(registry).id_to_schema@.contains_key(other) <==> old(
            registry,
        ).id_to_schema@.contains_key(other),
        final(registry).id_to_schema@[other] == old(registry).id_to_schema@[other],
        final(registry).name_to_id@.contains_key(name) <==> old(registry).name_to_id@.contains_key(
            name,
        ),
        final(registry).name_to_id@[name] == old(registry).name_to_id@[name],
        final(registry).resource_ids@.contains(other) <==> old(registry).resource_ids@.contains(
            other,
        ),
        final(registry).resource_data@.contains_key(other) <==> old(
            registry,
        ).resource_data@.contains_key(other),
        final(registry).resource_data@[other] == old(registry).resource_data@[other],
{
}

/// A component type can be laid out exactly where the first multiple of its alignment behind its
/// fields is in the address space.
pub proof fn law_what_can_be_laid_out(fields: &[(StrKey, LuauFieldType)], fits: bool)
    requires
        call_ensures(SchemaRegistry::layout_fits, (fields,), fits),
    ensures
        fits <==> total_size(fields@) <= isize::MAX,
{
}

/// Recording a schema changes what stands under its name and its number, and nothing else.
pub proof fn law_inserting_a_schema(
    registry: &mut SchemaRegistry,
    id: ComponentId,
    schema: DynamicComponentSchema,
    other: ComponentId,
    name: Seq<char>,
)
    requires
        call_ensures(SchemaRegistry::insert, (registry, id, schema), ()),
        other != id,
        name != schema.name@,
    ensures
        final(registry).id_to_schema@.contains_key(id),
        final(registry).id_to_schema@[id] == schema,
        final(registry).name_to_id@.contains_key(schema.name@),
        final(registry).name_to_id@[schema.name@] == id,
        final(registry).id_to_schema@.contains_key(other) <==> old(
            registry,
        ).id_to_schema@.contains_key(other),
        final(registry).id_to_schema@[other] == old(registry).id_to_schema@[other],
        final(registry).name_to_id@.contains_key(name) <==> old(registry).name_to_id@.contains_key(
            name,
        ),
        final(registry).name_to_id@[name] == old(registry).name_to_id@[name],
        final(registry).resource_ids@ == old(registry).resource_ids@,
        final(registry).resource_data@ == old(registry).resource_data@,
        final(registry).order == old(registry).order,
{
}

} // verus!
