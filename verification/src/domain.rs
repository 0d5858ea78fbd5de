//! Domain tree types: the typed parse tree.
//!
//! Flat arena architecture. Every reference from one node to another is a typed
//! index into one of the arena's vectors; nodes are allocated children first.
use vstd::prelude::*;

verus! {

/// Index of an expression in `Arena::exprs`.
#[derive(Debug, Clone, Copy, PartialEq, Eq, Hash, Structural)]
pub struct ExprRef(pub u32);

/// Index of a statement in `Arena::stmts`.
#[derive(Debug, Clone, Copy, PartialEq, Eq, Hash, Structural)]
pub struct StmtRef(pub u32);

/// Index of a block in `Arena::blocks`.
#[derive(Debug, Clone, Copy, PartialEq, Eq, Hash, Structural)]
pub struct BlockRef(pub u32);

/// Index of a match expression in `Arena::matches`.
#[derive(Debug, Clone, Copy, PartialEq, Eq, Hash, Structural)]
pub struct MatchRef(pub u32);

/// Index of a field initializer in `Arena::field_inits`.
#[derive(Debug, Clone, Copy, PartialEq, Eq, Hash, Structural)]
pub struct FieldInitRef(pub u32);

/// Index of an enum child in `Arena::enum_children`.
#[derive(Debug, Clone, Copy, PartialEq, Eq, Hash, Structural)]
pub struct EnumChildRef(pub u32);

/// Index of a struct child in `Arena::struct_children`.
#[derive(Debug, Clone, Copy, PartialEq, Eq, Hash, Structural)]
pub struct StructChildRef(pub u32);

/// Index of a method definition in `Arena::method_defs`.
#[derive(Debug, Clone, Copy, PartialEq, Eq, Hash, Structural)]
pub struct MethodDefRef(pub u32);

/// Index of a match arm in `Arena::match_arms`.
#[derive(Debug, Clone, Copy, PartialEq, Eq, Hash, Structural)]
pub struct MatchArmRef(pub u32);

/// Index of a parameter in `Arena::params`.
#[derive(Debug, Clone, Copy, PartialEq, Eq, Hash, Structural)]
pub struct ParamRef(pub u32);

impl ExprRef {
    /// The index as a `usize`.
    pub fn idx(self) -> (r: usize)
        ensures
            r == self.0,
    {
        self.0 as usize
    }
}

impl StmtRef {
    /// The index as a `usize`.
    pub fn idx(self) -> (r: usize)
        ensures
            r == self.0,
    {
        self.0 as usize
    }
}

impl BlockRef {
    /// The index as a `usize`.
    pub fn idx(self) -> (r: usize)
        ensures
            r == self.0,
    {
        self.0 as usize
    }
}

impl MatchRef {
    /// The index as a `usize`.
    pub fn idx(self) -> (r: usize)
        ensures
            r == self.0,
    {
        self.0 as usize
    }
}

impl FieldInitRef {
    /// The index as a `usize`.
    pub fn idx(self) -> (r: usize)
        ensures
            r == self.0,
    {
        self.0 as usize
    }
}

impl EnumChildRef {
    /// The index as a `usize`.
    pub fn idx(self) -> (r: usize)
        ensures
            r == self.0,
    {
        self.0 as usize
    }
}

impl StructChildRef {
    /// The index as a `usize`.
    pub fn idx(self) -> (r: usize)
        ensures
            r == self.0,
    {
        self.0 as usize
    }
}

impl MethodDefRef {
    /// The index as a `usize`.
    pub fn idx(self) -> (r: usize)
        ensures
            r == self.0,
    {
        self.0 as usize
    }
}

impl MatchArmRef {
    /// The index as a `usize`.
    pub fn idx(self) -> (r: usize)
        ensures
            r == self.0,
    {
        self.0 as usize
    }
}

impl ParamRef {
    /// The index as a `usize`.
    pub fn idx(self) -> (r: usize)
        ensures
            r == self.0,
    {
        self.0 as usize
    }
}

/// Classification of a name.
#[derive(Debug, Clone, Copy, PartialEq, Eq, Hash, Structural)]
pub enum NameDomain {
    Type,
    Variant,
    Field,
    Trait,
    Method,
    Module,
    Literal,
    TypeParam,
}

/// A binary operator.
#[derive(Debug, Clone, Copy, PartialEq, Eq, Hash, Structural)]
pub enum Operator {
    Add,
    Sub,
    Mul,
    Mod,
    Eq,
    NotEq,
    Lt,
    Gt,
    LtEq,
    GtEq,
    And,
    Or,
}

/// Whether a definition is exported from its module.
#[derive(Debug, Clone, Copy, PartialEq, Eq, Structural)]
pub enum Visibility {
    Exported,
    Local,
}

/// Source position range of a node.
#[derive(Debug, Clone, Copy, PartialEq, Eq, Structural)]
pub struct Span {
    pub start: u32,
    pub end: u32,
}

/// A name as written in source.
#[derive(Debug, Clone, PartialEq, Eq, Hash)]
pub struct Name(pub String);

impl Name {
    /// The name spelled `s`.
    pub fn new(s: &str) -> (r: Name)
        ensures
            r.0@ == s@,
    {
        Name(String::from_str(s))
    }
}

impl Name {
    /// A copy of this name.
    pub fn duplicate(&self) -> (r: Name)
        ensures
            r == *self,
    {
        Name(self.0.clone())
    }
}

/// Copies of the names of `v`.
fn duplicate_names(v: &Vec<Name>) -> (r: Vec<Name>)
    ensures
        r@ == v@,
{
    let mut out: Vec<Name> = Vec::new();
    let mut i: usize = 0;
    while i < v.len()
        invariant
            i <= v@.len(),
            out@ == v@.subrange(0, i as int),
        decreases v@.len() - i,
    {
        out.push(v[i].duplicate());
        i += 1;
    }
    assert(out@ =~= v@);
    out
}

/// A type expression.
#[derive(Debug)]
pub enum TypeExpr {
    Simple(Name),
    Application { constructor: Name, args: Vec<TypeExpr> },
    Param(Name),
    BoundedParam { bounds: Vec<Name> },
    InstanceRef { constructor: Name, args: Vec<TypeExpr> },
}

/// What a type expression says, with names as text.
pub enum TypeView {
    Simple(Seq<char>),
    Application(Seq<char>, Seq<TypeView>),
    Param(Seq<char>),
    BoundedParam(Seq<Seq<char>>),
    InstanceRef(Seq<char>, Seq<TypeView>),
}

/// The texts of `names`.
pub open spec fn name_texts(names: Seq<Name>) -> Seq<Seq<char>> {
    names.map_values(|n: Name| n.0@)
}

impl TypeExpr {
    /// What this type expression says.
    pub open spec fn view_type(&self) -> TypeView
        decreases self, 1nat,
    {
        match self {
            TypeExpr::Simple(n) => TypeView::Simple(n.0@),
            TypeExpr::Application { constructor, args } => TypeView::Application(
                constructor.0@,
                TypeExpr::view_all(args@),
            ),
            TypeExpr::Param(n) => TypeView::Param(n.0@),
            TypeExpr::BoundedParam { bounds } => TypeView::BoundedParam(name_texts(bounds@)),
            TypeExpr::InstanceRef { constructor, args } => TypeView::InstanceRef(
                constructor.0@,
                TypeExpr::view_all(args@),
            ),
        }
    }

    /// What each of `v` says.
    pub open spec fn view_all(v: Seq<TypeExpr>) -> Seq<TypeView>
        decreases v, 0nat,
    {
        if v.len() == 0 {
            Seq::empty()
        } else {
            TypeExpr::view_all(v.drop_last()).push(v.last().view_type())
        }
    }
}

impl TypeExpr {
    /// A copy of this type expression, of the same form with copied names.
    #[verifier::loop_isolation(false)]
    pub(crate) fn duplicate(&self) -> (r: TypeExpr)
        ensures
            r.view_type() == self.view_type(),
        decreases self,
    {
        match self {
            TypeExpr::Simple(n) => TypeExpr::Simple(n.duplicate()),
            TypeExpr::Param(n) => TypeExpr::Param(n.duplicate()),
            TypeExpr::BoundedParam { bounds } => TypeExpr::BoundedParam {
                bounds: duplicate_names(bounds),
            },
            TypeExpr::Application { constructor, args } => {
                let mut out: Vec<TypeExpr> = Vec::new();
                let mut i: usize = 0;
                while i < args.len()
                    invariant
                        i <= args@.len(),
                        TypeExpr::view_all(out@) == TypeExpr::view_all(
                            args@.subrange(0, i as int),
                        ),
                    decreases args@.len() - i,
                {
                    assert(decreases_to!(*args => args@));
                    assert(decreases_to!(args@ => args@[i as int]));
                    let ghost before = out@;
                    out.push(args[i].duplicate());
                    proof {
                        assert(out@.drop_last() =~= before);
                        assert(args@.subrange(0, i + 1).drop_last() =~= args@.subrange(
                            0,
                            i as int,
                        ));
                    }
                    i += 1;
                }
                assert(args@.subrange(0, args@.len() as int) =~= args@);
                TypeExpr::Application { constructor: constructor.duplicate(), args: out }
            },
            TypeExpr::InstanceRef { constructor, args } => {
                let mut out: Vec<TypeExpr> = Vec::new();
                let mut i: usize = 0;
                while i < args.len()
                    invariant
                        i <= args@.len(),
                        TypeExpr::view_all(out@) == TypeExpr::view_all(
                            args@.subrange(0, i as int),
                        ),
                    decreases args@.len() - i,
                {
                    assert(decreases_to!(*args => args@));
                    assert(decreases_to!(args@ => args@[i as int]));
                    let ghost before = out@;
                    out.push(args[i].duplicate());
                    proof {
                        assert(out@.drop_last() =~= before);
                        assert(args@.subrange(0, i + 1).drop_last() =~= args@.subrange(
                            0,
                            i as int,
                        ));
                    }
                    i += 1;
                }
                assert(args@.subrange(0, args@.len() as int) =~= args@);
                TypeExpr::InstanceRef { constructor: constructor.duplicate(), args: out }
            },
        }
    }
}

/// A top-level construct of a program.
#[derive(Debug)]
pub enum RootChild {
    Module(ModuleDef),
    Enum(EnumDef),
    Struct(StructDef),
    Newtype(NewtypeDef),
    TraitDecl(TraitDeclDef),
    TraitImpl(TraitImplDef),
    Const(ConstDef),
    Ffi(FfiDef),
    Process(BlockRef),
}

/// What a top-level construct is, and the names it is given.
pub enum RootView {
    Module(Seq<char>),
    Enum(Seq<char>),
    Struct(Seq<char>),
    Newtype(Seq<char>),
    TraitDecl(Seq<char>),
    TraitImpl(Seq<char>, Seq<char>),
    Const(Seq<char>),
    Ffi(Seq<char>),
    Process,
}

impl RootChild {
    /// What this construct is, and the names it is given.
    pub open spec fn root_view(&self) -> RootView {
        match self {
            RootChild::Module(m) => RootView::Module(m.name.0@),
            RootChild::Enum(e) => RootView::Enum(e.name.0@),
            RootChild::Struct(d) => RootView::Struct(d.name.0@),
            RootChild::Newtype(n) => RootView::Newtype(n.name.0@),
            RootChild::TraitDecl(d) => RootView::TraitDecl(d.name.0@),
            RootChild::TraitImpl(i) => RootView::TraitImpl(i.trait_name.0@, i.for_type.0@),
            RootChild::Const(c) => RootView::Const(c.name.0@),
            RootChild::Ffi(f) => RootView::Ffi(f.library.0@),
            RootChild::Process(_) => RootView::Process,
        }
    }
}

/// The module declaration: name, exports and imports.
#[derive(Debug, Clone)]
pub struct ModuleDef {
    pub name: Name,
    pub exports: Vec<Name>,
    pub imports: Vec<ModuleImport>,
    pub span: Span,
}

/// Names imported from one module.
#[derive(Debug, Clone)]
pub struct ModuleImport {
    pub source: Name,
    pub names: Vec<Name>,
}

impl ModuleImport {
    /// The module imported from and the names imported.
    pub open spec fn import_view(&self) -> (Seq<char>, Seq<Seq<char>>) {
        (self.source.0@, name_texts(self.names@))
    }
}

/// The modules and names of `imports`.
pub open spec fn import_views(imports: Seq<ModuleImport>) -> Seq<(Seq<char>, Seq<Seq<char>>)> {
    imports.map_values(|m: ModuleImport| m.import_view())
}

/// An enum definition.
#[derive(Debug, Clone)]
pub struct EnumDef {
    pub name: Name,
    pub children: Vec<EnumChildRef>,
    pub span: Span,
}

/// A member of an enum.
#[derive(Debug)]
pub enum EnumChild {
    Variant { name: Name, span: Span },
    DataVariant { name: Name, payload: TypeExpr, span: Span },
    StructVariant { name: Name, fields: Vec<StructField>, span: Span },
    NestedEnum(EnumDef),
    NestedStruct(StructDef),
}

/// A struct definition.
#[derive(Debug, Clone)]
pub struct StructDef {
    pub name: Name,
    pub children: Vec<StructChildRef>,
    pub span: Span,
}

/// A member of a struct.
#[derive(Debug)]
pub enum StructChild {
    TypedField { name: Name, typ: TypeExpr, span: Span },
    SelfTypedField { name: Name, span: Span },
    NestedEnum(EnumDef),
    NestedStruct(StructDef),
}

/// A field of a struct variant.
#[derive(Debug)]
pub struct StructField {
    pub name: Name,
    pub typ: TypeExpr,
    pub span: Span,
}

/// What a struct member says: a typed field, a field typed by its own name, or a nested
/// definition; a field with the span it was read from.
pub enum MemberView {
    Typed(Seq<char>, TypeView, Span),
    Bare(Seq<char>, Span),
    Nested,
}

/// What an enum member says: a plain variant, a variant carrying a type, a variant with
/// fields (name, type and span of each), or a nested definition; a variant with the span
/// it was read from.
pub enum VariantView {
    Unit(Seq<char>, Span),
    Data(Seq<char>, TypeView, Span),
    Record(Seq<char>, Seq<(Seq<char>, TypeView, Span)>, Span),
    Nested,
}

impl StructChild {
    /// What this member says.
    pub open spec fn member_view(&self) -> MemberView {
        match self {
            StructChild::TypedField { name, typ, span } => MemberView::Typed(
                name.0@,
                typ.view_type(),
                *span,
            ),
            StructChild::SelfTypedField { name, span } => MemberView::Bare(name.0@, *span),
            _ => MemberView::Nested,
        }
    }
}

impl StructField {
    /// The name and type of this field.
    pub open spec fn field_view(&self) -> (Seq<char>, TypeView, Span) {
        (self.name.0@, self.typ.view_type(), self.span)
    }
}

/// The names and types of `fields`.
pub open spec fn field_views(fields: Seq<StructField>) -> Seq<(Seq<char>, TypeView, Span)> {
    fields.map_values(|f: StructField| f.field_view())
}

impl EnumChild {
    /// What this member says.
    pub open spec fn variant_view(&self) -> VariantView {
        match self {
            EnumChild::Variant { name, span } => VariantView::Unit(name.0@, *span),
            EnumChild::DataVariant { name, payload, span } => VariantView::Data(
                name.0@,
                payload.view_type(),
                *span,
            ),
            EnumChild::StructVariant { name, fields, span } => VariantView::Record(
                name.0@,
                field_views(fields@),
                *span,
            ),
            _ => VariantView::Nested,
        }
    }
}

/// A newtype definition.
#[derive(Debug)]
pub struct NewtypeDef {
    pub name: Name,
    pub wraps: TypeExpr,
    pub span: Span,
}

/// A constant definition.
#[derive(Debug)]
pub struct ConstDef {
    pub name: Name,
    pub typ: TypeExpr,
    pub value: LiteralValue,
    pub span: Span,
}

/// A literal value. A float is kept as the digits it was written with.
#[derive(Debug, Clone)]
pub enum LiteralValue {
    Int(i64),
    Float(String),
    Str(String),
}

/// A foreign library declaration.
#[derive(Debug)]
pub struct FfiDef {
    pub library: Name,
    pub functions: Vec<FfiFunction>,
    pub span: Span,
}

/// A function of a foreign library.
#[derive(Debug)]
pub struct FfiFunction {
    pub name: Name,
    pub params: Vec<ParamRef>,
    pub return_type: Option<TypeExpr>,
    pub span: Span,
}

/// An expression. Sub-expressions are arena references.
#[derive(Debug, Clone)]
pub enum Expr {
    BinAdd { left: ExprRef, right: ExprRef, span: Span },
    BinSub { left: ExprRef, right: ExprRef, span: Span },
    BinMul { left: ExprRef, right: ExprRef, span: Span },
    BinMod { left: ExprRef, right: ExprRef, span: Span },
    BinEq { left: ExprRef, right: ExprRef, span: Span },
    BinNotEq { left: ExprRef, right: ExprRef, span: Span },
    BinLt { left: ExprRef, right: ExprRef, span: Span },
    BinGt { left: ExprRef, right: ExprRef, span: Span },
    BinLtEq { left: ExprRef, right: ExprRef, span: Span },
    BinGtEq { left: ExprRef, right: ExprRef, span: Span },
    BinAnd { left: ExprRef, right: ExprRef, span: Span },
    BinOr { left: ExprRef, right: ExprRef, span: Span },
    FieldAccess { object: ExprRef, field: Name, span: Span },
    MethodCall { object: ExprRef, method: Name, args: Vec<ExprRef>, span: Span },
    TryUnwrap { inner: ExprRef, span: Span },
    InstanceRef { name: Name, span: Span },
    PathVariant { typ: Name, variant: Name, span: Span },
    PathMethod { typ: Name, method: Name, args: Vec<ExprRef>, span: Span },
    IntLit { value: i64, span: Span },
    FloatLit { value: String, span: Span },
    StringLit { value: String, span: Span },
    InlineEval(BlockRef),
    Match(MatchRef),
    Loop(BlockRef),
    Iteration { source: ExprRef, body: BlockRef },
    StructConstruct { typ: Name, fields: Vec<FieldInitRef>, span: Span },
}

/// A field initializer of a struct construction.
#[derive(Debug, Clone)]
pub struct FieldInit {
    pub name: Name,
    pub value: ExprRef,
}

/// A statement.
#[derive(Debug)]
pub enum Statement {
    EarlyReturn(ExprRef),
    Loop(BlockRef),
    Iteration { source: ExprRef, body: BlockRef },
    LocalTypeDecl { name: Name, typ: TypeExpr, span: Span },
    Mutation { name: Name, method: Name, args: Vec<ExprRef>, span: Span },
    Instance { name: Name, type_annotation: Option<TypeExpr>, value: ExprRef, span: Span },
    Expr(ExprRef),
}

/// A block: statements and an optional tail expression.
#[derive(Debug, Clone)]
pub struct Block {
    pub stmts: Vec<StmtRef>,
    pub tail: Option<ExprRef>,
}

/// The body of a method.
#[derive(Debug, Clone)]
pub enum MethodBody {
    Block(BlockRef),
    Match(MatchRef),
    Loop(BlockRef),
    Iteration { source: ExprRef, body: BlockRef },
    StructConstruct { typ: Name, fields: Vec<FieldInitRef>, span: Span },
}

/// A method parameter.
#[derive(Debug)]
pub enum Param {
    BorrowSelf,
    MutBorrowSelf,
    OwnedSelf,
    Named { name: Name, typ: TypeExpr },
    Bare { name: Name },
}

/// A match expression.
#[derive(Debug, Clone)]
pub struct MatchExpr {
    pub target: Option<ExprRef>,
    pub arms: Vec<MatchArmRef>,
}

/// One arm of a match expression.
#[derive(Debug, Clone)]
pub struct MatchArm {
    pub patterns: Vec<Pattern>,
    pub result: ExprRef,
}

/// A pattern of a match arm.
#[derive(Debug, Clone)]
pub enum Pattern {
    Variant(Name),
    VariantBind { variant: Name, binding: Name },
    OrPattern(Vec<Name>),
    StringLit(String),
}

/// A trait declaration.
#[derive(Debug)]
pub struct TraitDeclDef {
    pub name: Name,
    pub signatures: Vec<MethodSig>,
    pub span: Span,
}

/// A method signature.
#[derive(Debug)]
pub struct MethodSig {
    pub name: Name,
    pub params: Vec<ParamRef>,
    pub return_type: Option<TypeExpr>,
    pub span: Span,
}

/// A trait implementation for a type.
#[derive(Debug, Clone)]
pub struct TraitImplDef {
    pub trait_name: Name,
    pub for_type: Name,
    pub methods: Vec<MethodDefRef>,
    pub span: Span,
}

/// A method definition.
#[derive(Debug)]
pub struct MethodDef {
    pub name: Name,
    pub params: Vec<ParamRef>,
    pub return_type: Option<TypeExpr>,
    pub body: MethodBody,
    pub span: Span,
}

/// The arena: every node of a program, addressed by typed indices.
#[derive(Debug)]
pub struct Arena {
    pub exprs: Vec<Expr>,
    pub stmts: Vec<Statement>,
    pub blocks: Vec<Block>,
    pub matches: Vec<MatchExpr>,
    pub field_inits: Vec<FieldInit>,
    pub enum_children: Vec<EnumChild>,
    pub struct_children: Vec<StructChild>,
    pub method_defs: Vec<MethodDef>,
    pub match_arms: Vec<MatchArm>,
    pub params: Vec<Param>,
}

/// The parsed program: its top-level constructs and the arena they refer into.
#[derive(Debug)]
pub struct AskiProgram {
    pub children: Vec<RootChild>,
    pub arena: Arena,
}

/// How many nodes of each kind an arena holds.
pub struct Sizes {
    pub exprs: nat,
    pub stmts: nat,
    pub blocks: nat,
    pub matches: nat,
    pub field_inits: nat,
    pub enum_children: nat,
    pub struct_children: nat,
    pub method_defs: nat,
    pub match_arms: nat,
    pub params: nat,
}

impl Sizes {
    /// No node of any kind.
    pub open spec fn none() -> Sizes {
        Sizes {
            exprs: 0,
            stmts: 0,
            blocks: 0,
            matches: 0,
            field_inits: 0,
            enum_children: 0,
            struct_children: 0,
            method_defs: 0,
            match_arms: 0,
            params: 0,
        }
    }

    /// The counts of `self` and `o`, kind by kind, added.
    pub open spec fn plus(self, o: Sizes) -> Sizes {
        Sizes {
            exprs: self.exprs + o.exprs,
            stmts: self.stmts + o.stmts,
            blocks: self.blocks + o.blocks,
            matches: self.matches + o.matches,
            field_inits: self.field_inits + o.field_inits,
            enum_children: self.enum_children + o.enum_children,
            struct_children: self.struct_children + o.struct_children,
            method_defs: self.method_defs + o.method_defs,
            match_arms: self.match_arms + o.match_arms,
            params: self.params + o.params,
        }
    }

    /// Every count of `self` is at least that of `other`.
    pub open spec fn covers(self, other: Sizes) -> bool {
        &&& other.exprs <= self.exprs
        &&& other.stmts <= self.stmts
        &&& other.blocks <= self.blocks
        &&& other.matches <= self.matches
        &&& other.field_inits <= self.field_inits
        &&& other.enum_children <= self.enum_children
        &&& other.struct_children <= self.struct_children
        &&& other.method_defs <= self.method_defs
        &&& other.match_arms <= self.match_arms
        &&& other.params <= self.params
    }
}

/// `a` is a prefix of `b`.
pub open spec fn prefix_of<T>(a: Seq<T>, b: Seq<T>) -> bool {
    &&& a.len() <= b.len()
    &&& forall|i: int| 0 <= i < a.len() ==> #[trigger] b[i] == a[i]
}

/// Every expression reference of `v` is below `n`.
pub open spec fn exprs_below(v: Seq<ExprRef>, n: nat) -> bool {
    forall|k: int| 0 <= k < v.len() ==> (#[trigger] v[k]).0 < n
}

/// Every field initializer reference of `v` is below `n`.
pub open spec fn field_inits_below(v: Seq<FieldInitRef>, n: nat) -> bool {
    forall|k: int| 0 <= k < v.len() ==> (#[trigger] v[k]).0 < n
}

/// Every statement reference of `v` is below `n`.
pub open spec fn stmts_below(v: Seq<StmtRef>, n: nat) -> bool {
    forall|k: int| 0 <= k < v.len() ==> (#[trigger] v[k]).0 < n
}

/// Every match arm reference of `v` is below `n`.
pub open spec fn arms_below(v: Seq<MatchArmRef>, n: nat) -> bool {
    forall|k: int| 0 <= k < v.len() ==> (#[trigger] v[k]).0 < n
}

/// Every parameter reference of `v` is below `n`.
pub open spec fn params_below(v: Seq<ParamRef>, n: nat) -> bool {
    forall|k: int| 0 <= k < v.len() ==> (#[trigger] v[k]).0 < n
}

/// Every method definition reference of `v` is below `n`.
pub open spec fn method_defs_below(v: Seq<MethodDefRef>, n: nat) -> bool {
    forall|k: int| 0 <= k < v.len() ==> (#[trigger] v[k]).0 < n
}

/// Every enum child reference of `v` is below `n`.
pub open spec fn enum_children_below(v: Seq<EnumChildRef>, n: nat) -> bool {
    forall|k: int| 0 <= k < v.len() ==> (#[trigger] v[k]).0 < n
}

/// Every struct child reference of `v` is below `n`.
pub open spec fn struct_children_below(v: Seq<StructChildRef>, n: nat) -> bool {
    forall|k: int| 0 <= k < v.len() ==> (#[trigger] v[k]).0 < n
}

impl Expr {
    /// Every reference held by this expression points into an arena of sizes `s`.
    pub open spec fn refs_ok(&self, s: Sizes) -> bool {
        match self {
            Expr::BinAdd { left, right, .. } => left.0 < s.exprs && right.0 < s.exprs,
            Expr::BinSub { left, right, .. } => left.0 < s.exprs && right.0 < s.exprs,
            Expr::BinMul { left, right, .. } => left.0 < s.exprs && right.0 < s.exprs,
            Expr::BinMod { left, right, .. } => left.0 < s.exprs && right.0 < s.exprs,
            Expr::BinEq { left, right, .. } => left.0 < s.exprs && right.0 < s.exprs,
            Expr::BinNotEq { left, right, .. } => left.0 < s.exprs && right.0 < s.exprs,
            Expr::BinLt { left, right, .. } => left.0 < s.exprs && right.0 < s.exprs,
            Expr::BinGt { left, right, .. } => left.0 < s.exprs && right.0 < s.exprs,
            Expr::BinLtEq { left, right, .. } => left.0 < s.exprs && right.0 < s.exprs,
            Expr::BinGtEq { left, right, .. } => left.0 < s.exprs && right.0 < s.exprs,
            Expr::BinAnd { left, right, .. } => left.0 < s.exprs && right.0 < s.exprs,
            Expr::BinOr { left, right, .. } => left.0 < s.exprs && right.0 < s.exprs,
            Expr::FieldAccess { object, .. } => object.0 < s.exprs,
            Expr::MethodCall { object, args, .. } => object.0 < s.exprs && exprs_below(
                args@,
                s.exprs,
            ),
            Expr::TryUnwrap { inner, .. } => inner.0 < s.exprs,
            Expr::PathMethod { args, .. } => exprs_below(args@, s.exprs),
            Expr::InlineEval(b) => b.0 < s.blocks,
            Expr::Match(m) => m.0 < s.matches,
            Expr::Loop(b) => b.0 < s.blocks,
            Expr::Iteration { source, body } => source.0 < s.exprs && body.0 < s.blocks,
            Expr::StructConstruct { fields, .. } => field_inits_below(fields@, s.field_inits),
            _ => true,
        }
    }
}

impl Statement {
    /// Every reference held by this statement points into an arena of sizes `s`.
    pub open spec fn refs_ok(&self, s: Sizes) -> bool {
        match self {
            Statement::EarlyReturn(e) => e.0 < s.exprs,
            Statement::Loop(b) => b.0 < s.blocks,
            Statement::Iteration { source, body } => source.0 < s.exprs && body.0 < s.blocks,
            Statement::LocalTypeDecl { .. } => true,
            Statement::Mutation { args, .. } => exprs_below(args@, s.exprs),
            Statement::Instance { value, .. } => value.0 < s.exprs,
            Statement::Expr(e) => e.0 < s.exprs,
        }
    }
}

impl Block {
    /// Every reference held by this block points into an arena of sizes `s`.
    pub open spec fn refs_ok(&self, s: Sizes) -> bool {
        &&& stmts_below(self.stmts@, s.stmts)
        &&& (self.tail matches Some(t) ==> t.0 < s.exprs)
    }
}

impl MatchExpr {
    /// Every reference held by this match points into an arena of sizes `s`.
    pub open spec fn refs_ok(&self, s: Sizes) -> bool {
        &&& (self.target matches Some(t) ==> t.0 < s.exprs)
        &&& arms_below(self.arms@, s.match_arms)
    }
}

impl FieldInit {
    /// The value reference points into an arena of sizes `s`.
    pub open spec fn refs_ok(&self, s: Sizes) -> bool {
        self.value.0 < s.exprs
    }
}

impl EnumDef {
    /// Every child reference points into an arena of sizes `s`.
    pub open spec fn refs_ok(&self, s: Sizes) -> bool {
        enum_children_below(self.children@, s.enum_children)
    }
}

impl StructDef {
    /// Every child reference points into an arena of sizes `s`.
    pub open spec fn refs_ok(&self, s: Sizes) -> bool {
        struct_children_below(self.children@, s.struct_children)
    }
}

impl EnumChild {
    /// Every reference held by this child points into an arena of sizes `s`.
    pub open spec fn refs_ok(&self, s: Sizes) -> bool {
        match self {
            EnumChild::NestedEnum(e) => e.refs_ok(s),
            EnumChild::NestedStruct(d) => d.refs_ok(s),
            _ => true,
        }
    }
}

impl StructChild {
    /// Every reference held by this child points into an arena of sizes `s`.
    pub open spec fn refs_ok(&self, s: Sizes) -> bool {
        match self {
            StructChild::NestedEnum(e) => e.refs_ok(s),
            StructChild::NestedStruct(d) => d.refs_ok(s),
            _ => true,
        }
    }
}

impl MethodBody {
    /// Every reference held by this body points into an arena of sizes `s`.
    pub open spec fn refs_ok(&self, s: Sizes) -> bool {
        match self {
            MethodBody::Block(b) => b.0 < s.blocks,
            MethodBody::Match(m) => m.0 < s.matches,
            MethodBody::Loop(b) => b.0 < s.blocks,
            MethodBody::Iteration { source, body } => source.0 < s.exprs && body.0 < s.blocks,
            MethodBody::StructConstruct { fields, .. } => field_inits_below(
                fields@,
                s.field_inits,
            ),
        }
    }
}

impl MethodDef {
    /// Every reference held by this method points into an arena of sizes `s`.
    pub open spec fn refs_ok(&self, s: Sizes) -> bool {
        params_below(self.params@, s.params) && self.body.refs_ok(s)
    }
}

impl MatchArm {
    /// The result reference points into an arena of sizes `s`.
    pub open spec fn refs_ok(&self, s: Sizes) -> bool {
        self.result.0 < s.exprs
    }
}

impl MethodSig {
    /// Every parameter reference points into an arena of sizes `s`.
    pub open spec fn refs_ok(&self, s: Sizes) -> bool {
        params_below(self.params@, s.params)
    }
}

impl FfiFunction {
    /// Every parameter reference points into an arena of sizes `s`.
    pub open spec fn refs_ok(&self, s: Sizes) -> bool {
        params_below(self.params@, s.params)
    }
}

impl RootChild {
    /// Every reference held by this construct points into an arena of sizes `s`.
    pub open spec fn refs_ok(&self, s: Sizes) -> bool {
        match self {
            RootChild::Enum(e) => e.refs_ok(s),
            RootChild::Struct(d) => d.refs_ok(s),
            RootChild::TraitDecl(t) => forall|k: int|
                0 <= k < t.signatures@.len() ==> (#[trigger] t.signatures@[k]).refs_ok(s),
            RootChild::TraitImpl(t) => method_defs_below(t.methods@, s.method_defs),
            RootChild::Ffi(f) => forall|k: int|
                0 <= k < f.functions@.len() ==> (#[trigger] f.functions@[k]).refs_ok(s),
            RootChild::Process(b) => b.0 < s.blocks,
            _ => true,
        }
    }
}

impl Expr {
    /// Valid references stay valid against larger counts.
    pub proof fn lemma_grow(&self, s: Sizes, t: Sizes)
        requires
            self.refs_ok(s),
            t.covers(s),
        ensures
            self.refs_ok(t),
    {
    }
}

impl Statement {
    /// Valid references stay valid against larger counts.
    pub proof fn lemma_grow(&self, s: Sizes, t: Sizes)
        requires
            self.refs_ok(s),
            t.covers(s),
        ensures
            self.refs_ok(t),
    {
    }
}

impl Block {
    /// Valid references stay valid against larger counts.
    pub proof fn lemma_grow(&self, s: Sizes, t: Sizes)
        requires
            self.refs_ok(s),
            t.covers(s),
        ensures
            self.refs_ok(t),
    {
    }
}

impl MatchExpr {
    /// Valid references stay valid against larger counts.
    pub proof fn lemma_grow(&self, s: Sizes, t: Sizes)
        requires
            self.refs_ok(s),
            t.covers(s),
        ensures
            self.refs_ok(t),
    {
    }
}

impl FieldInit {
    /// Valid references stay valid against larger counts.
    pub proof fn lemma_grow(&self, s: Sizes, t: Sizes)
        requires
            self.refs_ok(s),
            t.covers(s),
        ensures
            self.refs_ok(t),
    {
    }
}

impl EnumDef {
    /// Valid references stay valid against larger counts.
    pub proof fn lemma_grow(&self, s: Sizes, t: Sizes)
        requires
            self.refs_ok(s),
            t.covers(s),
        ensures
            self.refs_ok(t),
    {
    }
}

impl StructDef {
    /// Valid references stay valid against larger counts.
    pub proof fn lemma_grow(&self, s: Sizes, t: Sizes)
        requires
            self.refs_ok(s),
            t.covers(s),
        ensures
            self.refs_ok(t),
    {
    }
}

impl EnumChild {
    /// Valid references stay valid against larger counts.
    pub proof fn lemma_grow(&self, s: Sizes, t: Sizes)
        requires
            self.refs_ok(s),
            t.covers(s),
        ensures
            self.refs_ok(t),
    {
    }
}

impl StructChild {
    /// Valid references stay valid against larger counts.
    pub proof fn lemma_grow(&self, s: Sizes, t: Sizes)
        requires
            self.refs_ok(s),
            t.covers(s),
        ensures
            self.refs_ok(t),
    {
    }
}

impl MethodBody {
    /// Valid references stay valid against larger counts.
    pub proof fn lemma_grow(&self, s: Sizes, t: Sizes)
        requires
            self.refs_ok(s),
            t.covers(s),
        ensures
            self.refs_ok(t),
    {
    }
}

impl MethodDef {
    /// Valid references stay valid against larger counts.
    pub proof fn lemma_grow(&self, s: Sizes, t: Sizes)
        requires
            self.refs_ok(s),
            t.covers(s),
        ensures
            self.refs_ok(t),
    {
    }
}

impl MatchArm {
    /// Valid references stay valid against larger counts.
    pub proof fn lemma_grow(&self, s: Sizes, t: Sizes)
        requires
            self.refs_ok(s),
            t.covers(s),
        ensures
            self.refs_ok(t),
    {
    }
}

impl MethodSig {
    /// Valid references stay valid against larger counts.
    pub proof fn lemma_grow(&self, s: Sizes, t: Sizes)
        requires
            self.refs_ok(s),
            t.covers(s),
        ensures
            self.refs_ok(t),
    {
    }
}

impl FfiFunction {
    /// Valid references stay valid against larger counts.
    pub proof fn lemma_grow(&self, s: Sizes, t: Sizes)
        requires
            self.refs_ok(s),
            t.covers(s),
        ensures
            self.refs_ok(t),
    {
    }
}

impl RootChild {
    /// Valid references stay valid against larger counts.
    pub proof fn lemma_grow(&self, s: Sizes, t: Sizes)
        requires
            self.refs_ok(s),
            t.covers(s),
        ensures
            self.refs_ok(t),
    {
        match self {
            RootChild::TraitDecl(d) => {
                assert forall|k: int| 0 <= k < d.signatures@.len() implies (
                #[trigger] d.signatures@[k]).refs_ok(t) by {
                    d.signatures@[k].lemma_grow(s, t);
                }
            },
            RootChild::Ffi(f) => {
                assert forall|k: int| 0 <= k < f.functions@.len() implies (
                #[trigger] f.functions@[k]).refs_ok(t) by {
                    f.functions@[k].lemma_grow(s, t);
                }
            },
            _ => {},
        }
    }
}

impl Arena {
    /// An arena with nothing in it.
    pub fn new() -> (a: Arena)
        ensures
            a.is_empty(),
            a.wf(),
    {
        Arena {
            exprs: Vec::new(),
            stmts: Vec::new(),
            blocks: Vec::new(),
            matches: Vec::new(),
            field_inits: Vec::new(),
            enum_children: Vec::new(),
            struct_children: Vec::new(),
            method_defs: Vec::new(),
            match_arms: Vec::new(),
            params: Vec::new(),
        }
    }

    /// The arena holds no node.
    pub open spec fn is_empty(&self) -> bool {
        self.sizes() == Sizes {
            exprs: 0,
            stmts: 0,
            blocks: 0,
            matches: 0,
            field_inits: 0,
            enum_children: 0,
            struct_children: 0,
            method_defs: 0,
            match_arms: 0,
            params: 0,
        }
    }

    /// How many nodes of each kind the arena holds.
    pub open spec fn sizes(&self) -> Sizes {
        Sizes {
            exprs: self.exprs@.len(),
            stmts: self.stmts@.len(),
            blocks: self.blocks@.len(),
            matches: self.matches@.len(),
            field_inits: self.field_inits@.len(),
            enum_children: self.enum_children@.len(),
            struct_children: self.struct_children@.len(),
            method_defs: self.method_defs@.len(),
            match_arms: self.match_arms@.len(),
            params: self.params@.len(),
        }
    }

    /// Every reference stored in the arena points below the counts `s`.
    pub open spec fn wf_at(&self, s: Sizes) -> bool {
        &&& forall|i: int| 0 <= i < self.exprs@.len() ==> (#[trigger] self.exprs@[i]).refs_ok(s)
        &&& forall|i: int| 0 <= i < self.stmts@.len() ==> (#[trigger] self.stmts@[i]).refs_ok(s)
        &&& forall|i: int|
            0 <= i < self.blocks@.len() ==> (#[trigger] self.blocks@[i]).refs_ok(s)
        &&& forall|i: int|
            0 <= i < self.matches@.len() ==> (#[trigger] self.matches@[i]).refs_ok(s)
        &&& forall|i: int|
            0 <= i < self.field_inits@.len() ==> (#[trigger] self.field_inits@[i]).refs_ok(s)
        &&& forall|i: int|
            0 <= i < self.enum_children@.len() ==> (#[trigger] self.enum_children@[i]).refs_ok(s)
        &&& forall|i: int|
            0 <= i < self.struct_children@.len() ==> (
            #[trigger] self.struct_children@[i]).refs_ok(s)
        &&& forall|i: int|
            0 <= i < self.method_defs@.len() ==> (#[trigger] self.method_defs@[i]).refs_ok(s)
        &&& forall|i: int|
            0 <= i < self.match_arms@.len() ==> (#[trigger] self.match_arms@[i]).refs_ok(s)
    }

    /// Every reference stored in the arena points at a node of the arena.
    pub open spec fn wf(&self) -> bool {
        self.wf_at(self.sizes())
    }

    /// Checking against larger counts keeps every stored reference valid.
    pub proof fn lemma_wf_grow(&self, s: Sizes, t: Sizes)
        requires
            self.wf_at(s),
            t.covers(s),
        ensures
            self.wf_at(t),
    {
        assert forall|i: int| 0 <= i < self.exprs@.len() implies (
        #[trigger] self.exprs@[i]).refs_ok(t) by {
            self.exprs@[i].lemma_grow(s, t);
        }
        assert forall|i: int| 0 <= i < self.matches@.len() implies (
        #[trigger] self.matches@[i]).refs_ok(t) by {
            self.matches@[i].lemma_grow(s, t);
        }
        assert forall|i: int| 0 <= i < self.blocks@.len() implies (
        #[trigger] self.blocks@[i]).refs_ok(t) by {
            self.blocks@[i].lemma_grow(s, t);
        }
        assert forall|i: int| 0 <= i < self.stmts@.len() implies (
        #[trigger] self.stmts@[i]).refs_ok(t) by {
            self.stmts@[i].lemma_grow(s, t);
        }
        assert forall|i: int| 0 <= i < self.enum_children@.len() implies (
        #[trigger] self.enum_children@[i]).refs_ok(t) by {
            self.enum_children@[i].lemma_grow(s, t);
        }
        assert forall|i: int| 0 <= i < self.struct_children@.len() implies (
        #[trigger] self.struct_children@[i]).refs_ok(t) by {
            self.struct_children@[i].lemma_grow(s, t);
        }
        assert forall|i: int| 0 <= i < self.method_defs@.len() implies (
        #[trigger] self.method_defs@[i]).refs_ok(t) by {
            self.method_defs@[i].lemma_grow(s, t);
        }
    }

    /// The arena holds everything `old` held, at the same indices, and possibly more.
    pub open spec fn extends(&self, old: &Arena) -> bool {
        &&& prefix_of(old.exprs@, self.exprs@)
        &&& prefix_of(old.stmts@, self.stmts@)
        &&& prefix_of(old.blocks@, self.blocks@)
        &&& prefix_of(old.matches@, self.matches@)
        &&& prefix_of(old.field_inits@, self.field_inits@)
        &&& prefix_of(old.enum_children@, self.enum_children@)
        &&& prefix_of(old.struct_children@, self.struct_children@)
        &&& prefix_of(old.method_defs@, self.method_defs@)
        &&& prefix_of(old.match_arms@, self.match_arms@)
        &&& prefix_of(old.params@, self.params@)
    }

    /// No vector of the arena is longer than a `u32` index can reach.
    pub open spec fn indexable(&self) -> bool {
        let s = self.sizes();
        &&& s.exprs <= u32::MAX
        &&& s.stmts <= u32::MAX
        &&& s.blocks <= u32::MAX
        &&& s.matches <= u32::MAX
        &&& s.field_inits <= u32::MAX
        &&& s.enum_children <= u32::MAX
        &&& s.struct_children <= u32::MAX
        &&& s.method_defs <= u32::MAX
        &&& s.match_arms <= u32::MAX
        &&& s.params <= u32::MAX
    }

    /// While every index fits in a `u32`, every stored reference is valid.
    pub open spec fn sound(&self) -> bool {
        self.indexable() ==> self.wf()
    }

    /// Stores `expr` and returns its index, taken as `u32` from the length before.
    pub fn alloc_expr(&mut self, expr: Expr) -> (r: ExprRef)
        ensures
            r.0 == old(self).exprs@.len() as u32,
            final(self).exprs@ == old(self).exprs@.push(expr),
            final(self).stmts == old(self).stmts,
            final(self).blocks == old(self).blocks,
            final(self).matches == old(self).matches,
            final(self).field_inits == old(self).field_inits,
            final(self).enum_children == old(self).enum_children,
            final(self).struct_children == old(self).struct_children,
            final(self).method_defs == old(self).method_defs,
            final(self).match_arms == old(self).match_arms,
            final(self).params == old(self).params,
            old(self).sound() && (old(self).indexable() ==> expr.refs_ok(old(self).sizes()))
                ==> final(self).sound(),
            final(self).indexable() ==> r.0 == old(self).exprs@.len(),
            final(self).indexable() ==> final(self).exprs@[r.0 as int] == expr,
    {
        let idx = self.exprs.len() as u32;
        let ghost prev = *self;
        let ghost item = expr;
        self.exprs.push(expr);
        proof {
            if prev.sound() && (prev.indexable() ==> item.refs_ok(prev.sizes())) && self.indexable() {
                prev.lemma_wf_grow(prev.sizes(), self.sizes());
                item.lemma_grow(prev.sizes(), self.sizes());
                assert(self.wf_at(self.sizes()));
            }
        }
        ExprRef(idx)
    }

    /// Stores `stmt` and returns its index, taken as `u32` from the length before.
    pub fn alloc_stmt(&mut self, stmt: Statement) -> (r: StmtRef)
        ensures
            r.0 == old(self).stmts@.len() as u32,
            final(self).stmts@ == old(self).stmts@.push(stmt),
            final(self).exprs == old(self).exprs,
            final(self).blocks == old(self).blocks,
            final(self).matches == old(self).matches,
            final(self).field_inits == old(self).field_inits,
            final(self).enum_children == old(self).enum_children,
            final(self).struct_children == old(self).struct_children,
            final(self).method_defs == old(self).method_defs,
            final(self).match_arms == old(self).match_arms,
            final(self).params == old(self).params,
            old(self).sound() && (old(self).indexable() ==> stmt.refs_ok(old(self).sizes()))
                ==> final(self).sound(),
            final(self).indexable() ==> r.0 == old(self).stmts@.len(),
            final(self).indexable() ==> final(self).stmts@[r.0 as int] == stmt,
    {
        let idx = self.stmts.len() as u32;
        let ghost prev = *self;
        let ghost item = stmt;
        self.stmts.push(stmt);
        proof {
            if prev.sound() && (prev.indexable() ==> item.refs_ok(prev.sizes())) && self.indexable() {
                prev.lemma_wf_grow(prev.sizes(), self.sizes());
                item.lemma_grow(prev.sizes(), self.sizes());
                assert(self.wf_at(self.sizes()));
            }
        }
        StmtRef(idx)
    }

    /// Stores `block` and returns its index, taken as `u32` from the length before.
    pub fn alloc_block(&mut self, block: Block) -> (r: BlockRef)
        ensures
            r.0 == old(self).blocks@.len() as u32,
            final(self).blocks@ == old(self).blocks@.push(block),
            final(self).exprs == old(self).exprs,
            final(self).stmts == old(self).stmts,
            final(self).matches == old(self).matches,
            final(self).field_inits == old(self).field_inits,
            final(self).enum_children == old(self).enum_children,
            final(self).struct_children == old(self).struct_children,
            final(self).method_defs == old(self).method_defs,
            final(self).match_arms == old(self).match_arms,
            final(self).params == old(self).params,
            old(self).sound() && (old(self).indexable() ==> block.refs_ok(old(self).sizes()))
                ==> final(self).sound(),
            final(self).indexable() ==> r.0 == old(self).blocks@.len(),
            final(self).indexable() ==> final(self).blocks@[r.0 as int] == block,
    {
        let idx = self.blocks.len() as u32;
        let ghost prev = *self;
        let ghost item = block;
        self.blocks.push(block);
        proof {
            if prev.sound() && (prev.indexable() ==> item.refs_ok(prev.sizes())) && self.indexable() {
                prev.lemma_wf_grow(prev.sizes(), self.sizes());
                item.lemma_grow(prev.sizes(), self.sizes());
                assert(self.wf_at(self.sizes()));
            }
        }
        BlockRef(idx)
    }

    /// Stores `m` and returns its index, taken as `u32` from the length before.
    pub fn alloc_match(&mut self, m: MatchExpr) -> (r: MatchRef)
        ensures
            r.0 == old(self).matches@.len() as u32,
            final(self).matches@ == old(self).matches@.push(m),
            final(self).exprs == old(self).exprs,
            final(self).stmts == old(self).stmts,
            final(self).blocks == old(self).blocks,
            final(self).field_inits == old(self).field_inits,
            final(self).enum_children == old(self).enum_children,
            final(self).struct_children == old(self).struct_children,
            final(self).method_defs == old(self).method_defs,
            final(self).match_arms == old(self).match_arms,
            final(self).params == old(self).params,
            old(self).sound() && (old(self).indexable() ==> m.refs_ok(old(self).sizes()))
                ==> final(self).sound(),
            final(self).indexable() ==> r.0 == old(self).matches@.len(),
            final(self).indexable() ==> final(self).matches@[r.0 as int] == m,
    {
        let idx = self.matches.len() as u32;
        let ghost prev = *self;
        let ghost item = m;
        self.matches.push(m);
        proof {
            if prev.sound() && (prev.indexable() ==> item.refs_ok(prev.sizes())) && self.indexable() {
                prev.lemma_wf_grow(prev.sizes(), self.sizes());
                item.lemma_grow(prev.sizes(), self.sizes());
                assert(self.wf_at(self.sizes()));
            }
        }
        MatchRef(idx)
    }

    /// Stores `fi` and returns its index, taken as `u32` from the length before.
    pub fn alloc_field_init(&mut self, fi: FieldInit) -> (r: FieldInitRef)
        ensures
            r.0 == old(self).field_inits@.len() as u32,
            final(self).field_inits@ == old(self).field_inits@.push(fi),
            final(self).exprs == old(self).exprs,
            final(self).stmts == old(self).stmts,
            final(self).blocks == old(self).blocks,
            final(self).matches == old(self).matches,
            final(self).enum_children == old(self).enum_children,
            final(self).struct_children == old(self).struct_children,
            final(self).method_defs == old(self).method_defs,
            final(self).match_arms == old(self).match_arms,
            final(self).params == old(self).params,
            old(self).sound() && (old(self).indexable() ==> fi.refs_ok(old(self).sizes()))
                ==> final(self).sound(),
            final(self).indexable() ==> r.0 == old(self).field_inits@.len(),
            final(self).indexable() ==> final(self).field_inits@[r.0 as int] == fi,
    {
        let idx = self.field_inits.len() as u32;
        let ghost prev = *self;
        let ghost item = fi;
        self.field_inits.push(fi);
        proof {
            if prev.sound() && (prev.indexable() ==> item.refs_ok(prev.sizes())) && self.indexable() {
                prev.lemma_wf_grow(prev.sizes(), self.sizes());
                item.lemma_grow(prev.sizes(), self.sizes());
                assert(self.wf_at(self.sizes()));
            }
        }
        FieldInitRef(idx)
    }

    /// Stores `ec` and returns its index, taken as `u32` from the length before.
    pub fn alloc_enum_child(&mut self, ec: EnumChild) -> (r: EnumChildRef)
        ensures
            r.0 == old(self).enum_children@.len() as u32,
            final(self).enum_children@ == old(self).enum_children@.push(ec),
            final(self).exprs == old(self).exprs,
            final(self).stmts == old(self).stmts,
            final(self).blocks == old(self).blocks,
            final(self).matches == old(self).matches,
            final(self).field_inits == old(self).field_inits,
            final(self).struct_children == old(self).struct_children,
            final(self).method_defs == old(self).method_defs,
            final(self).match_arms == old(self).match_arms,
            final(self).params == old(self).params,
            old(self).sound() && (old(self).indexable() ==> ec.refs_ok(old(self).sizes()))
                ==> final(self).sound(),
            final(self).indexable() ==> r.0 == old(self).enum_children@.len(),
            final(self).indexable() ==> final(self).enum_children@[r.0 as int] == ec,
    {
        let idx = self.enum_children.len() as u32;
        let ghost prev = *self;
        let ghost item = ec;
        self.enum_children.push(ec);
        proof {
            if prev.sound() && (prev.indexable() ==> item.refs_ok(prev.sizes())) && self.indexable() {
                prev.lemma_wf_grow(prev.sizes(), self.sizes());
                item.lemma_grow(prev.sizes(), self.sizes());
                assert(self.wf_at(self.sizes()));
            }
        }
        EnumChildRef(idx)
    }

    /// Stores `sc` and returns its index, taken as `u32` from the length before.
    pub fn alloc_struct_child(&mut self, sc: StructChild) -> (r: StructChildRef)
        ensures
            r.0 == old(self).struct_children@.len() as u32,
            final(self).struct_children@ == old(self).struct_children@.push(sc),
            final(self).exprs == old(self).exprs,
            final(self).stmts == old(self).stmts,
            final(self).blocks == old(self).blocks,
            final(self).matches == old(self).matches,
            final(self).field_inits == old(self).field_inits,
            final(self).enum_children == old(self).enum_children,
            final(self).method_defs == old(self).method_defs,
            final(self).match_arms == old(self).match_arms,
            final(self).params == old(self).params,
            old(self).sound() && (old(self).indexable() ==> sc.refs_ok(old(self).sizes()))
                ==> final(self).sound(),
            final(self).indexable() ==> r.0 == old(self).struct_children@.len(),
            final(self).indexable() ==> final(self).struct_children@[r.0 as int] == sc,
    {
        let idx = self.struct_children.len() as u32;
        let ghost prev = *self;
        let ghost item = sc;
        self.struct_children.push(sc);
        proof {
            if prev.sound() && (prev.indexable() ==> item.refs_ok(prev.sizes())) && self.indexable() {
                prev.lemma_wf_grow(prev.sizes(), self.sizes());
                item.lemma_grow(prev.sizes(), self.sizes());
                assert(self.wf_at(self.sizes()));
            }
        }
        StructChildRef(idx)
    }

    /// Stores `md` and returns its index, taken as `u32` from the length before.
    pub fn alloc_method_def(&mut self, md: MethodDef) -> (r: MethodDefRef)
        ensures
            r.0 == old(self).method_defs@.len() as u32,
            final(self).method_defs@ == old(self).method_defs@.push(md),
            final(self).exprs == old(self).exprs,
            final(self).stmts == old(self).stmts,
            final(self).blocks == old(self).blocks,
            final(self).matches == old(self).matches,
            final(self).field_inits == old(self).field_inits,
            final(self).enum_children == old(self).enum_children,
            final(self).struct_children == old(self).struct_children,
            final(self).match_arms == old(self).match_arms,
            final(self).params == old(self).params,
            old(self).sound() && (old(self).indexable() ==> md.refs_ok(old(self).sizes()))
                ==> final(self).sound(),
            final(self).indexable() ==> r.0 == old(self).method_defs@.len(),
            final(self).indexable() ==> final(self).method_defs@[r.0 as int] == md,
    {
        let idx = self.method_defs.len() as u32;
        let ghost prev = *self;
        let ghost item = md;
        self.method_defs.push(md);
        proof {
            if prev.sound() && (prev.indexable() ==> item.refs_ok(prev.sizes())) && self.indexable() {
                prev.lemma_wf_grow(prev.sizes(), self.sizes());
                item.lemma_grow(prev.sizes(), self.sizes());
                assert(self.wf_at(self.sizes()));
            }
        }
        MethodDefRef(idx)
    }

    /// Stores `ma` and returns its index, taken as `u32` from the length before.
    pub fn alloc_match_arm(&mut self, ma: MatchArm) -> (r: MatchArmRef)
        ensures
            r.0 == old(self).match_arms@.len() as u32,
            final(self).match_arms@ == old(self).match_arms@.push(ma),
            final(self).exprs == old(self).exprs,
            final(self).stmts == old(self).stmts,
            final(self).blocks == old(self).blocks,
            final(self).matches == old(self).matches,
            final(self).field_inits == old(self).field_inits,
            final(self).enum_children == old(self).enum_children,
            final(self).struct_children == old(self).struct_children,
            final(self).method_defs == old(self).method_defs,
            final(self).params == old(self).params,
            old(self).sound() && (old(self).indexable() ==> ma.refs_ok(old(self).sizes()))
                ==> final(self).sound(),
            final(self).indexable() ==> r.0 == old(self).match_arms@.len(),
            final(self).indexable() ==> final(self).match_arms@[r.0 as int] == ma,
    {
        let idx = self.match_arms.len() as u32;
        let ghost prev = *self;
        let ghost item = ma;
        self.match_arms.push(ma);
        proof {
            if prev.sound() && (prev.indexable() ==> item.refs_ok(prev.sizes())) && self.indexable() {
                prev.lemma_wf_grow(prev.sizes(), self.sizes());
                item.lemma_grow(prev.sizes(), self.sizes());
                assert(self.wf_at(self.sizes()));
            }
        }
        MatchArmRef(idx)
    }

    /// Stores `p` and returns its index, taken as `u32` from the length before.
    pub fn alloc_param(&mut self, p: Param) -> (r: ParamRef)
        ensures
            r.0 == old(self).params@.len() as u32,
            final(self).params@ == old(self).params@.push(p),
            final(self).exprs == old(self).exprs,
            final(self).stmts == old(self).stmts,
            final(self).blocks == old(self).blocks,
            final(self).matches == old(self).matches,
            final(self).field_inits == old(self).field_inits,
            final(self).enum_children == old(self).enum_children,
            final(self).struct_children == old(self).struct_children,
            final(self).method_defs == old(self).method_defs,
            final(self).match_arms == old(self).match_arms,
            old(self).sound() ==> final(self).sound(),
            final(self).indexable() ==> r.0 == old(self).params@.len(),
            final(self).indexable() ==> final(self).params@[r.0 as int] == p,
    {
        let idx = self.params.len() as u32;
        let ghost prev = *self;
        let ghost item = p;
        self.params.push(p);
        proof {
            if prev.sound() && self.indexable() {
                prev.lemma_wf_grow(prev.sizes(), self.sizes());
                assert(self.wf_at(self.sizes()));
            }
        }
        ParamRef(idx)
    }
}

impl Default for Arena {
    fn default() -> (a: Arena)
        ensures
            a.is_empty(),
    {
        Arena::new()
    }
}

impl AskiProgram {
    /// Every reference of the program, in its constructs and in its arena, points at a
    /// node of its arena.
    pub open spec fn wf(&self) -> bool {
        &&& self.arena.wf()
        &&& forall|k: int|
            0 <= k < self.children@.len() ==> (#[trigger] self.children@[k]).refs_ok(
                self.arena.sizes(),
            )
    }
}

impl Default for AskiProgram {
    fn default() -> (p: AskiProgram)
        ensures
            p.children@.len() == 0,
            p.arena.is_empty(),
    {
        AskiProgram { children: Vec::new(), arena: Arena::new() }
    }
}

} // verus!
