use crate::error::{PlyError, SplatField};
use crate::header::{ElementView, PlyElement, PlyProperty, PropertyView};
use crate::scalar::PlyScalarType;
use crate::text::same_text;
use vstd::prelude::*;
use vstd::string::*;

verus! {

/// The lower-case form that `str::to_lowercase` gives to a text.
pub uninterp spec fn lowercase_of(s: Seq<char>) -> Seq<char>;

/// `str::to_lowercase`: the lower-case form of a text, by the Unicode rules.
pub assume_specification[ str::to_lowercase ](s: &str) -> (lower: String)
    ensures
        lower@ == lowercase_of(s@),
;

/// A scalar property as the lookup sees it: its name in lower case, and its
/// type. Its place in the table is its place among the properties.
#[derive(Debug, Clone)]
pub struct TableEntry {
    pub key: String,
    pub ty: PlyScalarType,
}

/// An entry of the lookup table, with its key as a sequence of characters.
pub struct EntryView {
    pub key: Seq<char>,
    pub ty: PlyScalarType,
}

impl View for TableEntry {
    type V = EntryView;

    open spec fn view(&self) -> EntryView {
        EntryView { key: self.key@, ty: self.ty }
    }
}

/// The entries of a table, each with its key as a sequence of characters.
pub open spec fn entries(table: Seq<TableEntry>) -> Seq<EntryView> {
    table.map_values(|e: TableEntry| e@)
}

/// A property found for a field: its place among the properties of the
/// element, and its declared type.
#[derive(Debug, Clone, Copy, PartialEq, Eq, Structural)]
pub struct FieldRef {
    pub index: usize,
    pub ty: PlyScalarType,
}

/// The place of the last entry with the key `name`, if there is one: of two
/// properties with one name the later counts.
pub open spec fn last_named(table: Seq<EntryView>, name: Seq<char>) -> Option<int>
    decreases table.len(),
{
    if table.len() == 0 {
        None
    } else if table.last().key == name {
        Some(table.len() - 1)
    } else {
        last_named(table.drop_last(), name)
    }
}

/// The property that the first of `names` with an entry in the table leads
/// to.
pub open spec fn pick(table: Seq<EntryView>, names: Seq<Seq<char>>) -> Option<FieldRef>
    decreases names.len(),
{
    if names.len() == 0 {
        None
    } else {
        match last_named(table, names[0]) {
            Some(i) => Some(FieldRef { index: i as usize, ty: table[i].ty }),
            None => pick(table, names.drop_first()),
        }
    }
}

/// The entry found under a name is the last one with that name as its key;
/// nothing is found exactly when no entry has that key.
pub proof fn lemma_last_named(table: Seq<EntryView>, name: Seq<char>)
    ensures
        match last_named(table, name) {
            Some(i) => 0 <= i < table.len() && table[i].key == name && forall|j: int|
                i < j < table.len() ==> (#[trigger] table[j]).key != name,
            None => forall|j: int| 0 <= j < table.len() ==> (#[trigger] table[j]).key != name,
        },
    decreases table.len(),
{
    if table.len() > 0 && table.last().key != name {
        lemma_last_named(table.drop_last(), name);
        assert(forall|j: int| 0 <= j < table.len() - 1 ==> table[j] == table.drop_last()[j]);
    }
}

/// The property found is the one that the first of the names with an entry
/// leads to; nothing is found exactly when none of the names has an entry.
pub proof fn lemma_pick(table: Seq<EntryView>, names: Seq<Seq<char>>)
    requires
        table.len() <= usize::MAX,
    ensures
        pick(table, names) is None <==> forall|k: int|
            0 <= k < names.len() ==> last_named(table, #[trigger] names[k]) is None,
        pick(table, names) matches Some(f) ==> f.index < table.len() && table[f.index as int].ty == f.ty && exists|k: int|
            0 <= k < names.len() && last_named(table, #[trigger] names[k]) == Some(f.index as int)
                && forall|j: int| 0 <= j < k ==> last_named(table, #[trigger] names[j]) is None,
    decreases names.len(),
{
    if names.len() > 0 {
        lemma_last_named(table, names[0]);
        match last_named(table, names[0]) {
            Some(i) => {
                let f = FieldRef { index: i as usize, ty: table[i].ty };
                assert(0 <= 0 < names.len() && last_named(table, names[0]) == Some(f.index as int)
                    && forall|j: int| 0 <= j < 0 ==> last_named(table, #[trigger] names[j]) is None);
            },
            None => {
                let rest = names.drop_first();
                lemma_pick(table, rest);
                assert(forall|k: int| 0 <= k < rest.len() ==> rest[k] == names[k + 1]);
                if pick(table, rest) is Some {
                    let f = pick(table, rest)->0;
                    let k = choose|k: int|
                        0 <= k < rest.len() && last_named(table, #[trigger] rest[k]) == Some(
                            f.index as int,
                        ) && forall|j: int|
                            0 <= j < k ==> last_named(table, #[trigger] rest[j]) is None;
                    assert(last_named(table, names[k + 1]) == Some(f.index as int));
                    assert forall|j: int| 0 <= j < k + 1 implies last_named(
                        table,
                        #[trigger] names[j],
                    ) is None by {
                        if j > 0 {
                            assert(rest[j - 1] == names[j]);
                        }
                    }
                } else {
                    assert forall|k: int| 0 <= k < names.len() implies last_named(
                        table,
                        #[trigger] names[k],
                    ) is None by {
                        if k > 0 {
                            assert(rest[k - 1] == names[k]);
                        }
                    }
                }
            },
        }
    }
}

fn find_last(table: &Vec<TableEntry>, name: &str) -> (found: Option<usize>)
    ensures
        match found {
            Some(i) => last_named(entries(table@), name@) == Some(i as int) && i < table.len(),
            None => last_named(entries(table@), name@) is None,
        },
{
    let ghost all = entries(table@);
    let mut n: usize = table.len();
    assert(all.take(n as int) =~= all);
    while n > 0
        invariant
            n <= table.len(),
            all == entries(table@),
            last_named(all.take(n as int), name@) == last_named(all, name@),
        decreases n,
    {
        assert(all.take(n as int).last() == table@[n - 1]@);
        assert(all.take(n as int).drop_last() =~= all.take(n - 1));
        if same_text(table[n - 1].key.as_str(), name) {
            return Some(n - 1);
        }
        n -= 1;
    }
    None
}

/// Looks the names up in the order given; the first that the table knows
/// decides.
pub fn pick_name(table: &Vec<TableEntry>, names: &[&str]) -> (found: Option<FieldRef>)
    ensures
        found == pick(entries(table@), names@.map_values(|n: &str| n@)),
        found matches Some(f) ==> f.index < table.len() && table[f.index as int].ty == f.ty,
{
    let ghost all = names@.map_values(|n: &str| n@);
    let mut k: usize = 0;
    assert(all.skip(0) =~= all);
    while k < names.len()
        invariant
            k <= names.len(),
            all == names@.map_values(|n: &str| n@),
            pick(entries(table@), all.skip(k as int)) == pick(entries(table@), all),
        decreases names.len() - k,
    {
        assert(all.skip(k as int)[0] == names@[k as int]@);
        assert(all.skip(k as int).drop_first() =~= all.skip(k + 1));
        match find_last(table, names[k]) {
            Some(i) => {
                return Some(FieldRef { index: i, ty: table[i].ty });
            },
            None => {},
        }
        k += 1;
    }
    None
}


/// The order in which a file stores the four parts of a rotation.
#[derive(Debug, Clone, Copy, PartialEq, Eq, Structural)]
pub enum QuatLayout {
    /// `rot_0` to `rot_3`, read as w, x, y, z.
    Wxyz,
    /// `qx`, `qy`, `qz`, `qw`, read as x, y, z, w.
    Xyzw,
}

/// The four properties of a rotation, in the order of the file.
#[derive(Debug, Clone, Copy, PartialEq, Eq, Structural)]
pub struct RotationFields {
    pub layout: QuatLayout,
    pub first: FieldRef,
    pub second: FieldRef,
    pub third: FieldRef,
    pub fourth: FieldRef,
}

/// Where the colour of a record comes from.
#[derive(Debug, Clone, Copy, PartialEq, Eq, Structural)]
pub enum ColorFields {
    /// Three channels, red, green and blue.
    Rgb { r: FieldRef, g: FieldRef, b: FieldRef },
    /// The three constant terms of the spherical harmonics.
    ShDc { c0: FieldRef, c1: FieldRef, c2: FieldRef },
    /// The file holds no colour.
    Absent,
}

/// The properties that hold the fields of a splat.
#[derive(Debug, Clone, Copy, PartialEq, Eq, Structural)]
pub struct SplatFields {
    pub x: FieldRef,
    pub y: FieldRef,
    pub z: FieldRef,
    pub scale_0: FieldRef,
    pub scale_1: FieldRef,
    pub scale_2: FieldRef,
    pub rotation: RotationFields,
    pub opacity: FieldRef,
    pub color: ColorFields,
}

/// A list of one name.
pub open spec fn one_name(a: &str) -> Seq<Seq<char>> {
    seq![a@]
}

/// A list of two names, in the order in which they are tried.
pub open spec fn two_names(a: &str, b: &str) -> Seq<Seq<char>> {
    seq![a@, b@]
}

/// A list of three names, in the order in which they are tried.
pub open spec fn three_names(a: &str, b: &str, c: &str) -> Seq<Seq<char>> {
    seq![a@, b@, c@]
}

/// A list of four names, in the order in which they are tried.
pub open spec fn four_names(a: &str, b: &str, c: &str, d: &str) -> Seq<Seq<char>> {
    seq![a@, b@, c@, d@]
}

/// The rotation that the table offers: `rot_0` to `rot_3` where all four are
/// there, else `qx`, `qy`, `qz`, `qw` where all four are there.
pub open spec fn rotation_of(table: Seq<EntryView>) -> Option<RotationFields> {
    let r0 = pick(table, one_name("rot_0"));
    let r1 = pick(table, one_name("rot_1"));
    let r2 = pick(table, one_name("rot_2"));
    let r3 = pick(table, one_name("rot_3"));
    let qx = pick(table, one_name("qx"));
    let qy = pick(table, one_name("qy"));
    let qz = pick(table, one_name("qz"));
    let qw = pick(table, one_name("qw"));
    if r0 is Some && r1 is Some && r2 is Some && r3 is Some {
        Some(
            RotationFields {
                layout: QuatLayout::Wxyz,
                first: r0->0,
                second: r1->0,
                third: r2->0,
                fourth: r3->0,
            },
        )
    } else if qx is Some && qy is Some && qz is Some && qw is Some {
        Some(
            RotationFields {
                layout: QuatLayout::Xyzw,
                first: qx->0,
                second: qy->0,
                third: qz->0,
                fourth: qw->0,
            },
        )
    } else {
        None
    }
}

/// The colour that the table offers: the three channels where all are there,
/// else the three harmonic terms where all are there.
pub open spec fn color_of(table: Seq<EntryView>) -> ColorFields {
    let r = pick(table, two_names("red", "r"));
    let g = pick(table, two_names("green", "g"));
    let b = pick(table, two_names("blue", "b"));
    let c0 = pick(table, one_name("f_dc_0"));
    let c1 = pick(table, one_name("f_dc_1"));
    let c2 = pick(table, one_name("f_dc_2"));
    if r is Some && g is Some && b is Some {
        ColorFields::Rgb { r: r->0, g: g->0, b: b->0 }
    } else if c0 is Some && c1 is Some && c2 is Some {
        ColorFields::ShDc { c0: c0->0, c1: c1->0, c2: c2->0 }
    } else {
        ColorFields::Absent
    }
}

/// The fields of a splat as the table offers them. Each field goes by the
/// first of its names that the table knows; the first required field that
/// is missing, in the order x, y, z, the three scales, the rotation and the
/// opacity, is the error.
pub open spec fn fields_of(table: Seq<EntryView>) -> Result<SplatFields, PlyError> {
    let x = pick(table, three_names("x", "pos_x", "position_x"));
    let y = pick(table, three_names("y", "pos_y", "position_y"));
    let z = pick(table, three_names("z", "pos_z", "position_z"));
    let s0 = pick(table, four_names("scale_0", "sx", "scale_x", "scalex"));
    let s1 = pick(table, four_names("scale_1", "sy", "scale_y", "scaley"));
    let s2 = pick(table, four_names("scale_2", "sz", "scale_z", "scalez"));
    let rotation = rotation_of(table);
    let opacity = pick(table, three_names("opacity", "alpha", "opac"));
    if x is None {
        Err(PlyError::MissingField(SplatField::X))
    } else if y is None {
        Err(PlyError::MissingField(SplatField::Y))
    } else if z is None {
        Err(PlyError::MissingField(SplatField::Z))
    } else if s0 is None {
        Err(PlyError::MissingField(SplatField::Scale0))
    } else if s1 is None {
        Err(PlyError::MissingField(SplatField::Scale1))
    } else if s2 is None {
        Err(PlyError::MissingField(SplatField::Scale2))
    } else if rotation is None {
        Err(PlyError::MissingField(SplatField::Rotation))
    } else if opacity is None {
        Err(PlyError::MissingField(SplatField::Opacity))
    } else {
        Ok(
            SplatFields {
                x: x->0,
                y: y->0,
                z: z->0,
                scale_0: s0->0,
                scale_1: s1->0,
                scale_2: s2->0,
                rotation: rotation->0,
                opacity: opacity->0,
                color: color_of(table),
            },
        )
    }
}

fn pick_one(table: &Vec<TableEntry>, a: &str) -> (found: Option<FieldRef>)
    ensures
        found == pick(entries(table@), one_name(a)),
        found matches Some(f) ==> f.index < table.len() && table[f.index as int].ty == f.ty,
{
    let names = [a];
    assert(names@.map_values(|n: &str| n@) =~= one_name(a));
    pick_name(table, names.as_slice())
}

fn pick_two(table: &Vec<TableEntry>, a: &str, b: &str) -> (found: Option<FieldRef>)
    ensures
        found == pick(entries(table@), two_names(a, b)),
        found matches Some(f) ==> f.index < table.len() && table[f.index as int].ty == f.ty,
{
    let names = [a, b];
    assert(names@.map_values(|n: &str| n@) =~= two_names(a, b));
    pick_name(table, names.as_slice())
}

fn pick_three(table: &Vec<TableEntry>, a: &str, b: &str, c: &str) -> (found: Option<FieldRef>)
    ensures
        found == pick(entries(table@), three_names(a, b, c)),
        found matches Some(f) ==> f.index < table.len() && table[f.index as int].ty == f.ty,
{
    let names = [a, b, c];
    assert(names@.map_values(|n: &str| n@) =~= three_names(a, b, c));
    pick_name(table, names.as_slice())
}

fn pick_four(table: &Vec<TableEntry>, a: &str, b: &str, c: &str, d: &str) -> (found: Option<
    FieldRef,
>)
    ensures
        found == pick(entries(table@), four_names(a, b, c, d)),
        found matches Some(f) ==> f.index < table.len() && table[f.index as int].ty == f.ty,
{
    let names = [a, b, c, d];
    assert(names@.map_values(|n: &str| n@) =~= four_names(a, b, c, d));
    pick_name(table, names.as_slice())
}


impl FieldRef {
    /// The property that this points to stands in the table, with this type.
    pub open spec fn fits(self, table: Seq<EntryView>) -> bool {
        self.index < table.len() && table[self.index as int].ty == self.ty
    }
}

impl SplatFields {
    /// The properties in the order in which a record is read: the position,
    /// the scales, the rotation in the order of the file, the opacity, and
    /// the colour where there is one.
    pub open spec fn read_order(self) -> Seq<FieldRef> {
        let base = seq![
            self.x,
            self.y,
            self.z,
            self.scale_0,
            self.scale_1,
            self.scale_2,
            self.rotation.first,
            self.rotation.second,
            self.rotation.third,
            self.rotation.fourth,
            self.opacity,
        ];
        match self.color {
            ColorFields::Rgb { r, g, b } => base + seq![r, g, b],
            ColorFields::ShDc { c0, c1, c2 } => base + seq![c0, c1, c2],
            ColorFields::Absent => base,
        }
    }

    /// Every property that a record is read from stands in the table.
    pub open spec fn fits(self, table: Seq<EntryView>) -> bool {
        forall|k: int|
            0 <= k < self.read_order().len() ==> (#[trigger] self.read_order()[k]).fits(table)
    }

    /// The properties in the order in which a record is read.
    pub fn reads(&self) -> (order: Vec<FieldRef>)
        ensures
            order@ == self.read_order(),
            order.len() == 11 || order.len() == 14,
    {
        let mut order: Vec<FieldRef> = Vec::new();
        order.push(self.x);
        order.push(self.y);
        order.push(self.z);
        order.push(self.scale_0);
        order.push(self.scale_1);
        order.push(self.scale_2);
        order.push(self.rotation.first);
        order.push(self.rotation.second);
        order.push(self.rotation.third);
        order.push(self.rotation.fourth);
        order.push(self.opacity);
        match self.color {
            ColorFields::Rgb { r, g, b } => {
                order.push(r);
                order.push(g);
                order.push(b);
            },
            ColorFields::ShDc { c0, c1, c2 } => {
                order.push(c0);
                order.push(c1);
                order.push(c2);
            },
            ColorFields::Absent => {},
        }
        assert(order@ =~= self.read_order());
        order
    }
}

fn find_rotation(table: &Vec<TableEntry>) -> (found: Option<RotationFields>)
    ensures
        found == rotation_of(entries(table@)),
        found matches Some(r) ==> r.first.fits(entries(table@)) && r.second.fits(entries(table@))
            && r.third.fits(entries(table@)) && r.fourth.fits(entries(table@)),
{
    let r0 = pick_one(table, "rot_0");
    let r1 = pick_one(table, "rot_1");
    let r2 = pick_one(table, "rot_2");
    let r3 = pick_one(table, "rot_3");
    let qx = pick_one(table, "qx");
    let qy = pick_one(table, "qy");
    let qz = pick_one(table, "qz");
    let qw = pick_one(table, "qw");
    match (r0, r1, r2, r3) {
        (Some(first), Some(second), Some(third), Some(fourth)) => {
            return Some(
                RotationFields { layout: QuatLayout::Wxyz, first, second, third, fourth },
            );
        },
        _ => {},
    }
    match (qx, qy, qz, qw) {
        (Some(first), Some(second), Some(third), Some(fourth)) => Some(
            RotationFields { layout: QuatLayout::Xyzw, first, second, third, fourth },
        ),
        _ => None,
    }
}

fn find_color(table: &Vec<TableEntry>) -> (found: ColorFields)
    ensures
        found == color_of(entries(table@)),
        match found {
            ColorFields::Rgb { r, g, b } => r.fits(entries(table@)) && g.fits(entries(table@))
                && b.fits(entries(table@)),
            ColorFields::ShDc { c0, c1, c2 } => c0.fits(entries(table@)) && c1.fits(
                entries(table@),
            ) && c2.fits(entries(table@)),
            ColorFields::Absent => true,
        },
{
    let r = pick_two(table, "red", "r");
    let g = pick_two(table, "green", "g");
    let b = pick_two(table, "blue", "b");
    let c0 = pick_one(table, "f_dc_0");
    let c1 = pick_one(table, "f_dc_1");
    let c2 = pick_one(table, "f_dc_2");
    match (r, g, b) {
        (Some(r), Some(g), Some(b)) => {
            return ColorFields::Rgb { r, g, b };
        },
        _ => {},
    }
    match (c0, c1, c2) {
        (Some(c0), Some(c1), Some(c2)) => ColorFields::ShDc { c0, c1, c2 },
        _ => ColorFields::Absent,
    }
}

/// Finds the properties that hold the fields of a splat, in a table of the
/// lower-case names and the types of an element's properties.
pub fn resolve_fields(table: &Vec<TableEntry>) -> (found: Result<SplatFields, PlyError>)
    ensures
        found == fields_of(entries(table@)),
        found matches Ok(fields) ==> fields.fits(entries(table@)),
{
    let x = match pick_three(table, "x", "pos_x", "position_x") {
        Some(f) => f,
        None => {
            return Err(PlyError::MissingField(SplatField::X));
        },
    };
    let y = match pick_three(table, "y", "pos_y", "position_y") {
        Some(f) => f,
        None => {
            return Err(PlyError::MissingField(SplatField::Y));
        },
    };
    let z = match pick_three(table, "z", "pos_z", "position_z") {
        Some(f) => f,
        None => {
            return Err(PlyError::MissingField(SplatField::Z));
        },
    };
    let scale_0 = match pick_four(table, "scale_0", "sx", "scale_x", "scalex") {
        Some(f) => f,
        None => {
            return Err(PlyError::MissingField(SplatField::Scale0));
        },
    };
    let scale_1 = match pick_four(table, "scale_1", "sy", "scale_y", "scaley") {
        Some(f) => f,
        None => {
            return Err(PlyError::MissingField(SplatField::Scale1));
        },
    };
    let scale_2 = match pick_four(table, "scale_2", "sz", "scale_z", "scalez") {
        Some(f) => f,
        None => {
            return Err(PlyError::MissingField(SplatField::Scale2));
        },
    };
    let rotation = match find_rotation(table) {
        Some(r) => r,
        None => {
            return Err(PlyError::MissingField(SplatField::Rotation));
        },
    };
    let opacity = match pick_three(table, "opacity", "alpha", "opac") {
        Some(f) => f,
        None => {
            return Err(PlyError::MissingField(SplatField::Opacity));
        },
    };
    let color = find_color(table);
    let fields = SplatFields {
        x,
        y,
        z,
        scale_0,
        scale_1,
        scale_2,
        rotation,
        opacity,
        color,
    };
    Ok(fields)
}


/// The element whose records are the splats goes by the name `vertex`, in
/// any mix of cases.
pub open spec fn is_vertex(name: Seq<char>) -> bool {
    lowercase_of(name) == "vertex"@
}

/// The place of the first element from `from` on that is the vertex element.
pub open spec fn vertex_from(elements: Seq<ElementView>, from: int) -> Option<int>
    decreases elements.len() - from,
{
    if from < 0 || from >= elements.len() {
        None
    } else if is_vertex(elements[from].name) {
        Some(from)
    } else {
        vertex_from(elements, from + 1)
    }
}

/// The place of the vertex element among the elements of a header.
pub open spec fn vertex_index(elements: Seq<ElementView>) -> Option<int> {
    vertex_from(elements, 0)
}

/// One of the properties is a list.
pub open spec fn has_list(properties: Seq<PropertyView>) -> bool {
    exists|i: int| 0 <= i < properties.len() && #[trigger] properties[i] is List
}

/// The entry of the lookup table for a property.
pub open spec fn entry_of(p: PropertyView) -> EntryView {
    match p {
        PropertyView::Scalar { name, ty } => EntryView { key: lowercase_of(name), ty },
        PropertyView::List { name, count_ty, item_ty } => EntryView {
            key: lowercase_of(name),
            ty: item_ty,
        },
    }
}

/// The lookup table for the properties of an element.
pub open spec fn table_of(properties: Seq<PropertyView>) -> Seq<EntryView> {
    properties.map_values(|p: PropertyView| entry_of(p))
}

/// Finds the vertex element of a header: the first whose name reads
/// `vertex` in lower case.
pub fn find_vertex(elements: &Vec<PlyElement>) -> (found: Option<usize>)
    ensures
        match found {
            Some(i) => i < elements.len() && vertex_index(
                elements@.map_values(|e: PlyElement| e@),
            ) == Some(i as int),
            None => vertex_index(elements@.map_values(|e: PlyElement| e@)) is None,
        },
{
    let ghost all = elements@.map_values(|e: PlyElement| e@);
    let mut i: usize = 0;
    while i < elements.len()
        invariant
            i <= elements.len(),
            all == elements@.map_values(|e: PlyElement| e@),
            vertex_from(all, i as int) == vertex_index(all),
        decreases elements.len() - i,
    {
        assert(all[i as int].name == elements@[i as int].name@);
        let lower = elements[i].name.as_str().to_lowercase();
        if same_text(lower.as_str(), "vertex") {
            return Some(i);
        }
        i += 1;
    }
    None
}

/// Builds the lookup table for the properties of an element: one entry for
/// each, with the name in lower case. An element with a list property has no
/// table.
pub fn name_table(properties: &Vec<PlyProperty>) -> (table: Result<Vec<TableEntry>, PlyError>)
    ensures
        match table {
            Ok(t) => !has_list(properties@.map_values(|p: PlyProperty| p@)) && entries(t@)
                == table_of(properties@.map_values(|p: PlyProperty| p@)),
            Err(e) => e == PlyError::UnsupportedListProperty && has_list(
                properties@.map_values(|p: PlyProperty| p@),
            ),
        },
{
    let ghost all = properties@.map_values(|p: PlyProperty| p@);
    let mut table: Vec<TableEntry> = Vec::new();
    let mut i: usize = 0;
    while i < properties.len()
        invariant
            i <= properties.len(),
            all == properties@.map_values(|p: PlyProperty| p@),
            table.len() == i,
            forall|k: int| 0 <= k < i ==> !(#[trigger] all[k] is List),
            forall|k: int| 0 <= k < i ==> (#[trigger] table@[k])@ == entry_of(all[k]),
        decreases properties.len() - i,
    {
        assert(all[i as int] == properties@[i as int]@);
        match &properties[i] {
            PlyProperty::List { .. } => {
                return Err(PlyError::UnsupportedListProperty);
            },
            PlyProperty::Scalar { name, ty } => {
                let key = name.as_str().to_lowercase();
                table.push(TableEntry { key, ty: *ty });
            },
        }
        i += 1;
    }
    assert(entries(table@) =~= table_of(all));
    Ok(table)
}

} // verus!
