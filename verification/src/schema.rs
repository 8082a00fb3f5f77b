//! The schema of a tile: named layers, each an ordered list of typed fields.
//!
//! A schema is declared as plain data ([`LayerDecl`], [`FieldDecl`]) and
//! resolved once by [`mapack`]. Resolution fails on a field that has neither
//! an automatic nor a custom codec, on a name used twice, and on an identity
//! that names no text field. A resolved schema is immutable and every codec
//! function takes it for granted.

use vstd::prelude::*;
use crate::vector_tile::views;

verus! {

/// The kind of value a field holds.
#[derive(Clone, Copy, Debug, PartialEq, Eq, Structural)]
pub enum FieldKind {
    Bool,
    U8,
    U16,
    U32,
    U64,
    Text,
    /// A field of any other type. It has no automatic codec and holds the
    /// generic value as it travels.
    Custom,
}

impl FieldKind {
    /// The largest number a field of this kind holds; zero for the kinds
    /// that hold no number.
    pub open spec fn limit(self) -> u64 {
        match self {
            FieldKind::U8 => 0xff,
            FieldKind::U16 => 0xffff,
            FieldKind::U32 => 0xffff_ffff,
            FieldKind::U64 => 0xffff_ffff_ffff_ffff,
            _ => 0,
        }
    }

    /// Whether the kind holds an unsigned number.
    pub open spec fn is_number(self) -> bool {
        self == FieldKind::U8 || self == FieldKind::U16 || self == FieldKind::U32 || self
            == FieldKind::U64
    }

    /// The kind that a type name stands for, if it has an automatic codec.
    pub open spec fn of_type_name(name: Seq<char>) -> Option<FieldKind> {
        if name == "bool"@ {
            Some(FieldKind::Bool)
        } else if name == "u8"@ {
            Some(FieldKind::U8)
        } else if name == "u16"@ {
            Some(FieldKind::U16)
        } else if name == "u32"@ {
            Some(FieldKind::U32)
        } else if name == "u64"@ {
            Some(FieldKind::U64)
        } else if name == "String"@ {
            Some(FieldKind::Text)
        } else {
            None
        }
    }

    /// The kind that a type name stands for, if it has an automatic codec:
    /// `bool`, `u8`, `u16`, `u32`, `u64` and `String` have one.
    pub fn from_type_name(name: &String) -> (r: Option<FieldKind>)
        ensures
            r == Self::of_type_name(name@),
    {
        if same_text(name, &"bool".to_owned()) {
            Some(FieldKind::Bool)
        } else if same_text(name, &"u8".to_owned()) {
            Some(FieldKind::U8)
        } else if same_text(name, &"u16".to_owned()) {
            Some(FieldKind::U16)
        } else if same_text(name, &"u32".to_owned()) {
            Some(FieldKind::U32)
        } else if same_text(name, &"u64".to_owned()) {
            Some(FieldKind::U64)
        } else if same_text(name, &"String".to_owned()) {
            Some(FieldKind::Text)
        } else {
            None
        }
    }
}

/// Whether two texts hold the same characters.
pub fn same_text(a: &String, b: &String) -> (r: bool)
    ensures
        r == (a@ == b@),
{
    *a == *b
}

/// A field as it is declared: its name, the name of its type, and whether
/// the automatic encoder or decoder is switched off in favour of a custom
/// one.
#[derive(Clone, Debug, PartialEq, Eq)]
pub struct FieldDecl {
    pub name: String,
    pub ty: String,
    pub no_encode: bool,
    pub no_decode: bool,
}

/// What a [`FieldDecl`] holds.
pub ghost struct FieldDeclView {
    pub name: Seq<char>,
    pub ty: Seq<char>,
    pub no_encode: bool,
    pub no_decode: bool,
}

impl View for FieldDecl {
    type V = FieldDeclView;

    open spec fn view(&self) -> FieldDeclView {
        FieldDeclView {
            name: self.name@,
            ty: self.ty@,
            no_encode: self.no_encode,
            no_decode: self.no_decode,
        }
    }
}

/// A layer as it is declared: its name, its fields in order, and the name
/// of the text field that identifies an entity, if there is one.
#[derive(Clone, Debug, PartialEq, Eq)]
pub struct LayerDecl {
    pub name: String,
    pub fields: Vec<FieldDecl>,
    pub identity: Option<String>,
}

/// What a [`LayerDecl`] holds.
pub ghost struct LayerDeclView {
    pub name: Seq<char>,
    pub fields: Seq<FieldDeclView>,
    pub identity: Option<Seq<char>>,
}

impl View for LayerDecl {
    type V = LayerDeclView;

    open spec fn view(&self) -> LayerDeclView {
        LayerDeclView {
            name: self.name@,
            fields: views(self.fields@),
            identity: match self.identity {
                Some(s) => Some(s@),
                None => None,
            },
        }
    }
}

/// A resolved field. Its name is also its key in the layer's key list.
#[derive(Clone, Debug, PartialEq, Eq)]
pub struct FieldSchema {
    pub name: String,
    pub kind: FieldKind,
    pub auto_encode: bool,
    pub auto_decode: bool,
}

/// What a [`FieldSchema`] holds.
pub ghost struct FieldSchemaView {
    pub name: Seq<char>,
    pub kind: FieldKind,
    pub auto_encode: bool,
    pub auto_decode: bool,
}

impl View for FieldSchema {
    type V = FieldSchemaView;

    open spec fn view(&self) -> FieldSchemaView {
        FieldSchemaView {
            name: self.name@,
            kind: self.kind,
            auto_encode: self.auto_encode,
            auto_decode: self.auto_decode,
        }
    }
}

/// Why a layer's declaration cannot be resolved.
#[derive(Clone, Copy, Debug, PartialEq, Eq, Structural)]
pub enum LayerFault {
    /// The field at this position has a type without an automatic codec and
    /// does not switch both automatic halves off.
    NoCodec { field: usize },
    /// The field at this position has the name of an earlier field.
    DuplicateField { field: usize },
    /// The identity names no field of the layer, or a field that is no text.
    BadIdentity,
}

/// Why a tile's declaration cannot be resolved.
#[derive(Clone, Copy, Debug, PartialEq, Eq, Structural)]
pub enum SchemaError {
    /// The layer at this position has a fault of its own.
    Layer { layer: usize, fault: LayerFault },
    /// The layer at this position has the name of an earlier layer.
    DuplicateLayer { layer: usize },
}

/// The resolved form of a declared field. A type without an automatic
/// codec gives the kind [`FieldKind::Custom`].
pub open spec fn resolved_field(d: FieldDeclView) -> FieldSchemaView {
    FieldSchemaView {
        name: d.name,
        kind: match FieldKind::of_type_name(d.ty) {
            Some(k) => k,
            None => FieldKind::Custom,
        },
        auto_encode: !d.no_encode,
        auto_decode: !d.no_decode,
    }
}

/// The fault of the field at position `j` taken by itself and against the
/// fields before it.
pub open spec fn field_fault(fields: Seq<FieldDeclView>, j: int) -> Option<LayerFault> {
    if FieldKind::of_type_name(fields[j].ty).is_none() && !(fields[j].no_encode
        && fields[j].no_decode) {
        Some(LayerFault::NoCodec { field: j as usize })
    } else if exists|k: int| 0 <= k < j && fields[k].name == fields[j].name {
        Some(LayerFault::DuplicateField { field: j as usize })
    } else {
        None
    }
}

/// The fault of the first faulty field among the first `upto` fields.
pub open spec fn first_field_fault(fields: Seq<FieldDeclView>, upto: int) -> Option<LayerFault>
    decreases upto,
{
    if upto <= 0 {
        None
    } else {
        match first_field_fault(fields, upto - 1) {
            Some(f) => Some(f),
            None => field_fault(fields, upto - 1),
        }
    }
}

/// Whether `k` is the position of a text field named `name`.
pub open spec fn names_text_field(fields: Seq<FieldDeclView>, name: Seq<char>, k: int) -> bool {
    &&& 0 <= k < fields.len()
    &&& fields[k].name == name
    &&& FieldKind::of_type_name(fields[k].ty) == Some(FieldKind::Text)
}

/// The fault of a layer's declaration: that of its first faulty field, else
/// a bad identity, else none.
pub open spec fn layer_fault(d: LayerDeclView) -> Option<LayerFault> {
    match first_field_fault(d.fields, d.fields.len() as int) {
        Some(f) => Some(f),
        None => match d.identity {
            Some(name) => if exists|k: int| names_text_field(d.fields, name, k) {
                None
            } else {
                Some(LayerFault::BadIdentity)
            },
            None => None,
        },
    }
}

/// The fault of the layer at position `i`, by itself and against the layers
/// before it.
pub open spec fn schema_fault(layers: Seq<LayerDeclView>, i: int) -> Option<SchemaError> {
    match layer_fault(layers[i]) {
        Some(fault) => Some(SchemaError::Layer { layer: i as usize, fault }),
        None => if exists|k: int| 0 <= k < i && layers[k].name == layers[i].name {
            Some(SchemaError::DuplicateLayer { layer: i as usize })
        } else {
            None
        },
    }
}

/// The fault of the first faulty layer among the first `upto` layers.
pub open spec fn first_schema_fault(layers: Seq<LayerDeclView>, upto: int) -> Option<SchemaError>
    decreases upto,
{
    if upto <= 0 {
        None
    } else {
        match first_schema_fault(layers, upto - 1) {
            Some(f) => Some(f),
            None => schema_fault(layers, upto - 1),
        }
    }
}

/// What a [`LayerSchema`] holds.
pub ghost struct LayerSchemaView {
    pub name: Seq<char>,
    pub fields: Seq<FieldSchemaView>,
    pub identity: Option<int>,
}

impl LayerSchemaView {
    /// Field names are distinct, a field of a type without an automatic
    /// codec uses neither automatic half, and the identity is a text field.
    pub open spec fn wf(self) -> bool {
        &&& forall|j: int, k: int|
            0 <= j < k < self.fields.len() ==> self.fields[j].name != self.fields[k].name
        &&& forall|j: int|
            0 <= j < self.fields.len() && #[trigger] self.fields[j].kind == FieldKind::Custom
                ==> !self.fields[j].auto_encode && !self.fields[j].auto_decode
        &&& match self.identity {
            Some(k) => 0 <= k < self.fields.len() && self.fields[k].kind == FieldKind::Text,
            None => true,
        }
    }

    /// The key list: the field names in order.
    pub open spec fn keys(self) -> Seq<Seq<char>> {
        Seq::new(self.fields.len(), |j: int| self.fields[j].name)
    }
}

/// The resolved form of a faultless layer declaration.
pub open spec fn resolved_layer(d: LayerDeclView) -> LayerSchemaView {
    LayerSchemaView {
        name: d.name,
        fields: Seq::new(d.fields.len(), |j: int| resolved_field(d.fields[j])),
        identity: match d.identity {
            Some(name) => Some(choose|k: int| names_text_field(d.fields, name, k)),
            None => None,
        },
    }
}

/// A resolved layer.
#[derive(Debug, PartialEq, Eq)]
pub struct LayerSchema {
    name: String,
    fields: Vec<FieldSchema>,
    identity: Option<usize>,
}

impl View for LayerSchema {
    type V = LayerSchemaView;

    closed spec fn view(&self) -> LayerSchemaView {
        LayerSchemaView {
            name: self.name@,
            fields: views(self.fields@),
            identity: match self.identity {
                Some(k) => Some(k as int),
                None => None,
            },
        }
    }
}

/// A field that is faultless where it stands has a name that no earlier
/// field has.
proof fn lemma_first_field_fault_none(fields: Seq<FieldDeclView>, upto: int)
    requires
        0 <= upto <= fields.len(),
        first_field_fault(fields, upto).is_none(),
    ensures
        forall|j: int| 0 <= j < upto ==> field_fault(fields, j).is_none(),
    decreases upto,
{
    if upto > 0 {
        lemma_first_field_fault_none(fields, upto - 1);
    }
}

/// A fault found among the first fields stays the first fault of the whole
/// list.
proof fn lemma_first_field_fault_stays(fields: Seq<FieldDeclView>, at: int, upto: int)
    requires
        0 <= at <= upto,
        first_field_fault(fields, at).is_some(),
    ensures
        first_field_fault(fields, upto) == first_field_fault(fields, at),
    decreases upto,
{
    if at < upto {
        lemma_first_field_fault_stays(fields, at, upto - 1);
    }
}

/// A fault found among the first layers stays the first fault of the whole
/// list.
proof fn lemma_first_schema_fault_stays(layers: Seq<LayerDeclView>, at: int, upto: int)
    requires
        0 <= at <= upto,
        first_schema_fault(layers, at).is_some(),
    ensures
        first_schema_fault(layers, upto) == first_schema_fault(layers, at),
    decreases upto,
{
    if at < upto {
        lemma_first_schema_fault_stays(layers, at, upto - 1);
    }
}

impl LayerSchema {
    #[verifier::type_invariant]
    spec fn sound(self) -> bool {
        self@.wf()
    }

    /// Resolves one layer's declaration.
    pub fn resolve(decl: &LayerDecl) -> (r: Result<LayerSchema, LayerFault>)
        ensures
            match r {
                Ok(layer) => layer_fault(decl@).is_none() && layer@ == resolved_layer(decl@)
                    && layer@.wf(),
                Err(fault) => layer_fault(decl@) == Some(fault),
            },
    {
        let ghost decls = decl@.fields;
        let n: usize = decl.fields.len();
        let mut fields: Vec<FieldSchema> = Vec::new();
        let mut j: usize = 0;
        while j < n
            invariant
                n == decl.fields.len(),
                decls == decl@.fields,
                0 <= j <= n,
                first_field_fault(decls, j as int).is_none(),
                fields.len() == j,
                forall|k: int| 0 <= k < j ==> (#[trigger] fields[k])@ == resolved_field(decls[k]),
            decreases n - j,
        {
            let d = &decl.fields[j];
            assert(d@ == decls[j as int]);
            let known = FieldKind::from_type_name(&d.ty);
            if known.is_none() && !(d.no_encode && d.no_decode) {
                proof {
                    lemma_first_field_fault_stays(decls, j + 1, n as int);
                }
                return Err(LayerFault::NoCodec { field: j });
            }
            let mut k: usize = 0;
            while k < j
                invariant
                    n == decl.fields.len(),
                    decls == decl@.fields,
                    0 <= k <= j < n,
                    d@ == decls[j as int],
                    first_field_fault(decls, j as int).is_none(),
                    FieldKind::of_type_name(decls[j as int].ty).is_some() || (decls[j as int].no_encode
                        && decls[j as int].no_decode),
                    forall|m: int| 0 <= m < k ==> decls[m].name != decls[j as int].name,
                decreases j - k,
            {
                assert(decl.fields[k as int]@ == decls[k as int]);
                if same_text(&decl.fields[k].name, &d.name) {
                    proof {
                        assert(field_fault(decls, j as int) == Some(
                            LayerFault::DuplicateField { field: j },
                        ));
                        lemma_first_field_fault_stays(decls, j + 1, n as int);
                    }
                    return Err(LayerFault::DuplicateField { field: j });
                }
                k += 1;
            }
            let kind = match known {
                Some(kind) => kind,
                None => FieldKind::Custom,
            };
            fields.push(
                FieldSchema {
                    name: d.name.clone(),
                    kind,
                    auto_encode: !d.no_encode,
                    auto_decode: !d.no_decode,
                },
            );
            assert(field_fault(decls, j as int).is_none());
            j += 1;
        }
        proof {
            lemma_first_field_fault_none(decls, n as int);
        }
        let identity: Option<usize> = match &decl.identity {
            None => None,
            Some(name) => {
                let mut k: usize = 0;
                let mut found: Option<usize> = None;
                while k < n && found.is_none()
                    invariant
                        n == decl.fields.len(),
                        decls == decl@.fields,
                        0 <= k <= n,
                        forall|m: int| 0 <= m < n ==> field_fault(decls, m).is_none(),
                        match found {
                            Some(m) => names_text_field(decls, name@, m as int),
                            None => forall|m: int|
                                0 <= m < k ==> !names_text_field(decls, name@, m),
                        },
                    decreases n - k + if found.is_none() { 1int } else { 0int },
                {
                    let d = &decl.fields[k];
                    assert(d@ == decls[k as int]);
                    let is_text = match FieldKind::from_type_name(&d.ty) {
                        Some(FieldKind::Text) => true,
                        _ => false,
                    };
                    if is_text && same_text(&d.name, name) {
                        found = Some(k);
                    } else {
                        k += 1;
                    }
                }
                match found {
                    None => {
                        return Err(LayerFault::BadIdentity);
                    },
                    Some(m) => {
                        proof {
                            let c = choose|c: int| names_text_field(decls, name@, c);
                            assert(names_text_field(decls, name@, c));
                            if c != m {
                                if c < m {
                                    assert(field_fault(decls, m as int).is_none());
                                } else {
                                    assert(field_fault(decls, c).is_none());
                                }
                            }
                        }
                        Some(m)
                    },
                }
            },
        };
        proof {
            let resolved = views(fields@);
            assert(resolved =~= resolved_layer(decl@).fields);
            assert forall|a: int, b: int| 0 <= a < b < resolved.len() implies resolved[a].name
                != resolved[b].name by {
                assert(field_fault(decls, b).is_none());
            }
            assert forall|a: int|
                0 <= a < resolved.len() && #[trigger] resolved[a].kind
                    == FieldKind::Custom implies !resolved[a].auto_encode
                && !resolved[a].auto_decode by {
                assert(field_fault(decls, a).is_none());
            }
            match identity {
                Some(m) => {
                    assert(resolved[m as int] == resolved_field(decls[m as int]));
                },
                None => {},
            }
        }
        Ok(LayerSchema { name: decl.name.clone(), fields, identity })
    }

    /// A copy of the layer.
    pub fn duplicate(&self) -> (r: LayerSchema)
        ensures
            r@ == self@,
    {
        proof {
            use_type_invariant(self);
        }
        let mut fields: Vec<FieldSchema> = Vec::new();
        let mut j: usize = 0;
        while j < self.fields.len()
            invariant
                0 <= j <= self.fields.len(),
                fields.len() == j,
                forall|k: int| 0 <= k < j ==> (#[trigger] fields[k])@ == self.fields[k]@,
            decreases self.fields.len() - j,
        {
            let f = &self.fields[j];
            fields.push(
                FieldSchema {
                    name: f.name.clone(),
                    kind: f.kind,
                    auto_encode: f.auto_encode,
                    auto_decode: f.auto_decode,
                },
            );
            j += 1;
        }
        assert(views(fields@) =~= views(self.fields@));
        LayerSchema { name: self.name.clone(), fields, identity: self.identity }
    }

    /// The layer's name.
    pub fn name(&self) -> (r: &String)
        ensures
            r@ == self@.name,
            self@.wf(),
    {
        proof {
            use_type_invariant(self);
        }
        &self.name
    }

    /// The layer's fields in order.
    pub fn fields(&self) -> (r: &Vec<FieldSchema>)
        ensures
            views(r@) == self@.fields,
            self@.wf(),
    {
        proof {
            use_type_invariant(self);
        }
        &self.fields
    }

    /// The position of the text field that identifies an entity.
    pub fn identity(&self) -> (r: Option<usize>)
        ensures
            match r {
                Some(k) => self@.identity == Some(k as int),
                None => self@.identity.is_none(),
            },
            self@.wf(),
    {
        proof {
            use_type_invariant(self);
        }
        self.identity
    }

    /// The position of the field with this name.
    pub fn find_field(&self, name: &String) -> (r: Option<usize>)
        ensures
            match r {
                Some(k) => 0 <= k < self@.fields.len() && self@.fields[k as int].name == name@,
                None => forall|k: int| 0 <= k < self@.fields.len() ==> self@.fields[k].name != name@,
            },
    {
        let mut k: usize = 0;
        while k < self.fields.len()
            invariant
                0 <= k <= self.fields.len(),
                forall|m: int| 0 <= m < k ==> self@.fields[m].name != name@,
            decreases self.fields.len() - k,
        {
            if same_text(&self.fields[k].name, name) {
                return Some(k);
            }
            k += 1;
        }
        None
    }

    /// The key list: a copy of the field names in order.
    pub fn keys(&self) -> (r: Vec<String>)
        ensures
            views(r@) == self@.keys(),
    {
        let mut keys: Vec<String> = Vec::new();
        let mut k: usize = 0;
        while k < self.fields.len()
            invariant
                0 <= k <= self.fields.len(),
                keys.len() == k,
                forall|m: int| 0 <= m < k ==> (#[trigger] keys[m])@ == self@.fields[m].name,
            decreases self.fields.len() - k,
        {
            keys.push(self.fields[k].name.clone());
            k += 1;
        }
        assert(views(keys@) =~= self@.keys());
        keys
    }
}

/// What a [`TileSchema`] holds: its layers in order.
pub ghost struct TileSchemaView {
    pub layers: Seq<LayerSchemaView>,
}

impl TileSchemaView {
    /// Every layer is sound and layer names are distinct.
    pub open spec fn wf(self) -> bool {
        &&& forall|i: int| 0 <= i < self.layers.len() ==> (#[trigger] self.layers[i]).wf()
        &&& forall|i: int, k: int|
            0 <= i < k < self.layers.len() ==> self.layers[i].name != self.layers[k].name
    }
}

/// The resolved form of a faultless tile declaration.
pub open spec fn resolved_schema(layers: Seq<LayerDeclView>) -> TileSchemaView {
    TileSchemaView { layers: Seq::new(layers.len(), |i: int| resolved_layer(layers[i])) }
}

/// A resolved tile schema.
#[derive(Debug, PartialEq, Eq)]
pub struct TileSchema {
    layers: Vec<LayerSchema>,
}

impl View for TileSchema {
    type V = TileSchemaView;

    closed spec fn view(&self) -> TileSchemaView {
        TileSchemaView { layers: views(self.layers@) }
    }
}

impl TileSchema {
    #[verifier::type_invariant]
    spec fn sound(self) -> bool {
        self@.wf()
    }

    /// A copy of the schema.
    pub fn duplicate(&self) -> (r: TileSchema)
        ensures
            r@ == self@,
    {
        proof {
            use_type_invariant(self);
        }
        let mut layers: Vec<LayerSchema> = Vec::new();
        let mut i: usize = 0;
        while i < self.layers.len()
            invariant
                0 <= i <= self.layers.len(),
                layers.len() == i,
                forall|k: int| 0 <= k < i ==> (#[trigger] layers[k])@ == self.layers[k]@,
            decreases self.layers.len() - i,
        {
            layers.push(self.layers[i].duplicate());
            i += 1;
        }
        assert(views(layers@) =~= views(self.layers@));
        TileSchema { layers }
    }

    /// The layers in order.
    pub fn layers(&self) -> (r: &Vec<LayerSchema>)
        ensures
            views(r@) == self@.layers,
            self@.wf(),
    {
        proof {
            use_type_invariant(self);
        }
        &self.layers
    }

    /// The position of the layer with this name.
    pub fn find_layer(&self, name: &String) -> (r: Option<usize>)
        ensures
            match r {
                Some(k) => 0 <= k < self@.layers.len() && self@.layers[k as int].name == name@,
                None => forall|k: int| 0 <= k < self@.layers.len() ==> self@.layers[k].name != name@,
            },
    {
        let mut k: usize = 0;
        while k < self.layers.len()
            invariant
                0 <= k <= self.layers.len(),
                forall|m: int| 0 <= m < k ==> self@.layers[m].name != name@,
            decreases self.layers.len() - k,
        {
            if same_text(self.layers[k].name(), name) {
                return Some(k);
            }
            k += 1;
        }
        None
    }
}

/// Resolves a tile's declaration into its schema. The first fault in
/// reading order is reported: layer by layer, inside a layer field by field,
/// then the identity, then the layer's name against the earlier layers.
pub fn mapack(layers: &Vec<LayerDecl>) -> (r: Result<TileSchema, SchemaError>)
    ensures
        match r {
            Ok(schema) => first_schema_fault(views(layers@), layers.len() as int).is_none()
                && schema@ == resolved_schema(views(layers@)) && schema@.wf(),
            Err(e) => first_schema_fault(views(layers@), layers.len() as int) == Some(e),
        },
{
    let ghost decls = views(layers@);
    let n: usize = layers.len();
    let mut resolved: Vec<LayerSchema> = Vec::new();
    let mut i: usize = 0;
    while i < n
        invariant
            n == layers.len(),
            decls == views(layers@),
            0 <= i <= n,
            first_schema_fault(decls, i as int).is_none(),
            resolved.len() == i,
            forall|k: int|
                0 <= k < i ==> (#[trigger] resolved[k])@ == resolved_layer(decls[k]) && resolved[k]@.wf(),
        decreases n - i,
    {
        let layer = match LayerSchema::resolve(&layers[i]) {
            Ok(layer) => layer,
            Err(fault) => {
                proof {
                    lemma_first_schema_fault_stays(decls, i + 1, n as int);
                }
                return Err(SchemaError::Layer { layer: i, fault });
            },
        };
        let mut k: usize = 0;
        while k < i
            invariant
                n == layers.len(),
                decls == views(layers@),
                0 <= k <= i < n,
                layer_fault(decls[i as int]).is_none(),
                first_schema_fault(decls, i as int).is_none(),
                forall|m: int| 0 <= m < k ==> decls[m].name != decls[i as int].name,
            decreases i - k,
        {
            if same_text(&layers[k].name, &layers[i].name) {
                proof {
                    assert(decls[k as int].name == decls[i as int].name);
                    lemma_first_schema_fault_stays(decls, i + 1, n as int);
                }
                return Err(SchemaError::DuplicateLayer { layer: i });
            }
            k += 1;
        }
        resolved.push(layer);
        i += 1;
    }
    proof {
        let made = views(resolved@);
        assert(made =~= resolved_schema(decls).layers);
        assert forall|a: int, b: int| 0 <= a < b < made.len() implies made[a].name
            != made[b].name by {
            lemma_first_schema_fault_none(decls, n as int);
            assert(schema_fault(decls, b).is_none());
        }
    }
    Ok(TileSchema { layers: resolved })
}

/// While no fault is found, no layer is faulty where it stands.
proof fn lemma_first_schema_fault_none(layers: Seq<LayerDeclView>, upto: int)
    requires
        0 <= upto <= layers.len(),
        first_schema_fault(layers, upto).is_none(),
    ensures
        forall|i: int| 0 <= i < upto ==> schema_fault(layers, i).is_none(),
    decreases upto,
{
    if upto > 0 {
        lemma_first_schema_fault_none(layers, upto - 1);
    }
}

} // verus!
