//! Module system pieces: export and import records and the project build settings.
use vstd::prelude::*;
use vstd::string::StringExecFns;
use crate::ast::{Param, Program, Stmt};
use crate::token::{Token, TokenKind, TokenKindView};
use crate::ast_view::{gparams, gtext};

verus! {

/// A symbol a module exports.
#[derive(Debug, Clone)]
pub struct ExportItem {
    pub name: String,
    pub kind: ExportKind,
    /// Whether it is exported with `pub`.
    pub is_pub: bool,
}

/// What kind of symbol is exported.
#[derive(Debug, Clone)]
pub enum ExportKind {
    Function { params: Vec<Param>, return_type: Option<String> },
    Type { fields: Vec<String> },
    Enum { variants: Vec<String> },
    Const,
    Variable,
}

/// A `use` declaration: the module path, the item and the local alias.
#[derive(Debug, Clone)]
pub struct ImportEntry {
    /// Module path, e.g. `["std", "io"]`.
    pub path: Vec<String>,
    pub item: String,
    pub alias: String,
}

/// Settings of a project build: where the project is, its entry file, the output
/// path, and whether to compile natively, skip optimisation and emit debug info.
pub struct ProjectBuilder {
    root_dir: String,
    entry_file: String,
    output_path: Option<String>,
    native: bool,
    no_opt: bool,
    debug_info: bool,
}

impl ProjectBuilder {
    /// The project directory.
    pub closed spec fn root(&self) -> Seq<char> {
        self.root_dir@
    }

    /// The entry file, relative to the project directory.
    pub closed spec fn entry(&self) -> Seq<char> {
        self.entry_file@
    }

    /// The output path, if one was given.
    pub closed spec fn output_path(&self) -> Option<Seq<char>> {
        match self.output_path {
            Some(p) => Some(p@),
            None => None,
        }
    }

    /// Whether the build compiles to native code.
    pub closed spec fn is_native(&self) -> bool {
        self.native
    }

    /// Whether optimisation is off.
    pub closed spec fn is_no_opt(&self) -> bool {
        self.no_opt
    }

    /// Whether debug information is emitted.
    pub closed spec fn has_debug_info(&self) -> bool {
        self.debug_info
    }

    /// A build of the project in `root_dir` with entry file `main.klc`, no output path
    /// and every flag off.
    pub fn new(root_dir: &str) -> (b: Self)
        ensures
            b.root() == root_dir@,
            b.entry() == "main.klc"@,
            b.output_path() is None,
            !b.is_native(),
            !b.is_no_opt(),
            !b.has_debug_info(),
    {
        ProjectBuilder {
            root_dir: String::from_str(root_dir),
            entry_file: String::from_str("main.klc"),
            output_path: None,
            native: false,
            no_opt: false,
            debug_info: false,
        }
    }

    /// Sets the entry file.
    pub fn entry_file(self, name: &str) -> (b: Self)
        ensures
            b.entry() == name@,
            b.root() == self.root(),
            b.output_path() == self.output_path(),
            b.is_native() == self.is_native(),
            b.is_no_opt() == self.is_no_opt(),
            b.has_debug_info() == self.has_debug_info(),
    {
        let mut b = self;
        b.entry_file = String::from_str(name);
        b
    }

    /// Sets the output path.
    pub fn output(self, path: &str) -> (b: Self)
        ensures
            b.output_path() == Some(path@),
            b.root() == self.root(),
            b.entry() == self.entry(),
            b.is_native() == self.is_native(),
            b.is_no_opt() == self.is_no_opt(),
            b.has_debug_info() == self.has_debug_info(),
    {
        let mut b = self;
        b.output_path = Some(String::from_str(path));
        b
    }

    /// Sets whether to compile to native code.
    pub fn native(self, flag: bool) -> (b: Self)
        ensures
            b.is_native() == flag,
            b.root() == self.root(),
            b.entry() == self.entry(),
            b.output_path() == self.output_path(),
            b.is_no_opt() == self.is_no_opt(),
            b.has_debug_info() == self.has_debug_info(),
    {
        let mut b = self;
        b.native = flag;
        b
    }

    /// Sets whether optimisation is off.
    pub fn no_opt(self, flag: bool) -> (b: Self)
        ensures
            b.is_no_opt() == flag,
            b.root() == self.root(),
            b.entry() == self.entry(),
            b.output_path() == self.output_path(),
            b.is_native() == self.is_native(),
            b.has_debug_info() == self.has_debug_info(),
    {
        let mut b = self;
        b.no_opt = flag;
        b
    }

    /// Sets whether debug information is emitted.
    pub fn debug_info(self, flag: bool) -> (b: Self)
        ensures
            b.has_debug_info() == flag,
            b.root() == self.root(),
            b.entry() == self.entry(),
            b.output_path() == self.output_path(),
            b.is_native() == self.is_native(),
            b.is_no_opt() == self.is_no_opt(),
    {
        let mut b = self;
        b.debug_info = flag;
        b
    }
}

/// What kind of symbol is exported, with texts as character sequences.
pub ghost enum ExportKindView {
    Function(Seq<(Seq<char>, Option<Seq<char>>)>, Option<Seq<char>>),
    Type(Seq<Seq<char>>),
    Enum(Seq<Seq<char>>),
    Const,
    Variable,
}

/// The texts of a list of strings.
pub open spec fn texts(v: Seq<String>) -> Seq<Seq<char>> {
    v.map_values(|s: String| s@)
}

/// An export kind as a value.
pub open spec fn export_kind_view(k: ExportKind) -> ExportKindView {
    match k {
        ExportKind::Function { params, return_type } => ExportKindView::Function(
            gparams(params@),
            gtext(return_type),
        ),
        ExportKind::Type { fields } => ExportKindView::Type(texts(fields@)),
        ExportKind::Enum { variants } => ExportKindView::Enum(texts(variants@)),
        ExportKind::Const => ExportKindView::Const,
        ExportKind::Variable => ExportKindView::Variable,
    }
}

/// What a top-level statement exports, if anything: a function with its parameters
/// and return type, a struct type with its field names, an enum with its variant
/// names, or a variable.
pub open spec fn export_of(s: Stmt) -> Option<(Seq<char>, ExportKindView)> {
    match s {
        Stmt::FnDef { name, params, return_type, .. } => Some(
            (name@, ExportKindView::Function(gparams(params@), gtext(return_type))),
        ),
        Stmt::TypeDef { name, fields } => Some(
            (name@, ExportKindView::Type(fields@.map_values(|f: crate::ast::StructField| f.name@))),
        ),
        Stmt::EnumDef { name, variants } => Some(
            (name@, ExportKindView::Enum(variants@.map_values(|v: crate::ast::EnumVariant| v.name@))),
        ),
        Stmt::Let { name, .. } => Some((name@, ExportKindView::Variable)),
        _ => None,
    }
}

/// The exports of a module's top-level statements, by name; a later definition of a
/// name replaces an earlier one.
pub open spec fn exports_of(v: Seq<Stmt>) -> Map<Seq<char>, ExportKindView>
    decreases v,
{
    if v.len() == 0 {
        Map::empty()
    } else {
        let m = exports_of(v.subrange(0, v.len() - 1));
        match export_of(v[v.len() - 1]) {
            Some((n, k)) => m.insert(n, k),
            None => m,
        }
    }
}

/// A copy of a parameter list.
fn copy_params(v: &Vec<Param>) -> (r: Vec<Param>)
    ensures
        gparams(r@) == gparams(v@),
{
    let mut r: Vec<Param> = Vec::new();
    let mut i: usize = 0;
    while i < v.len()
        invariant
            i <= v@.len(),
            r@.len() == i,
            forall|j: int|
                0 <= j < i ==> #[trigger] r@[j].name@ == v@[j].name@ && gtext(r@[j].type_ann) == gtext(
                    v@[j].type_ann,
                ),
        decreases v@.len() - i,
    {
        let t = match &v[i].type_ann {
            Some(x) => Some(x.clone()),
            None => None,
        };
        r.push(Param { name: v[i].name.clone(), type_ann: t });
        i = i + 1;
    }
    assert(gparams(r@) =~= gparams(v@));
    r
}

/// The names of a list of things, as strings.
fn field_names(v: &Vec<crate::ast::StructField>) -> (r: Vec<String>)
    ensures
        texts(r@) == v@.map_values(|f: crate::ast::StructField| f.name@),
{
    let mut r: Vec<String> = Vec::new();
    let mut i: usize = 0;
    while i < v.len()
        invariant
            i <= v@.len(),
            r@.len() == i,
            forall|j: int| 0 <= j < i ==> #[trigger] r@[j]@ == v@[j].name@,
        decreases v@.len() - i,
    {
        r.push(v[i].name.clone());
        i = i + 1;
    }
    assert(texts(r@) =~= v@.map_values(|f: crate::ast::StructField| f.name@));
    r
}

/// The names of enum variants, as strings.
fn variant_names(v: &Vec<crate::ast::EnumVariant>) -> (r: Vec<String>)
    ensures
        texts(r@) == v@.map_values(|x: crate::ast::EnumVariant| x.name@),
{
    let mut r: Vec<String> = Vec::new();
    let mut i: usize = 0;
    while i < v.len()
        invariant
            i <= v@.len(),
            r@.len() == i,
            forall|j: int| 0 <= j < i ==> #[trigger] r@[j]@ == v@[j].name@,
        decreases v@.len() - i,
    {
        r.push(v[i].name.clone());
        i = i + 1;
    }
    assert(texts(r@) =~= v@.map_values(|x: crate::ast::EnumVariant| x.name@));
    r
}

/// The exports of a module: one entry per exported name (all `pub`), holding what the
/// name's last top-level definition exports.
pub fn build_exports(program: &Program) -> (r: Vec<ExportItem>)
    ensures
        forall|i: int, j: int| 0 <= i < j < r.len() ==> r[i].name@ != r[j].name@,
        forall|i: int|
            0 <= i < r.len() ==> r[i].is_pub && exports_of(program.statements@).contains_key(r[i].name@)
                && exports_of(program.statements@)[r[i].name@] == export_kind_view(r[i].kind),
        forall|n: Seq<char>|
            exports_of(program.statements@).contains_key(n) ==> exists|i: int|
                0 <= i < r.len() && #[trigger] r[i].name@ == n,
{
    let stmts = &program.statements;
    let mut r: Vec<ExportItem> = Vec::new();
    let mut i: usize = 0;
    assert(stmts@.take(0) =~= Seq::<Stmt>::empty());
    while i < stmts.len()
        invariant
            i <= stmts@.len(),
            stmts == &program.statements,
            forall|a: int, b: int| 0 <= a < b < r.len() ==> r[a].name@ != r[b].name@,
            forall|a: int|
                0 <= a < r.len() ==> r[a].is_pub && exports_of(stmts@.take(i as int)).contains_key(
                    r[a].name@,
                ) && exports_of(stmts@.take(i as int))[r[a].name@] == export_kind_view(r[a].kind),
            forall|n: Seq<char>|
                exports_of(stmts@.take(i as int)).contains_key(n) ==> exists|a: int|
                    0 <= a < r.len() && #[trigger] r[a].name@ == n,
        decreases stmts@.len() - i,
    {
        assert(stmts@.take(i as int + 1).subrange(0, i as int) =~= stmts@.take(i as int));
        let item = match &stmts[i] {
            Stmt::FnDef { name, params, return_type, .. } => Some(
                ExportItem {
                    name: name.clone(),
                    kind: ExportKind::Function {
                        params: copy_params(params),
                        return_type: match return_type {
                            Some(t) => Some(t.clone()),
                            None => None,
                        },
                    },
                    is_pub: true,
                },
            ),
            Stmt::TypeDef { name, fields } => Some(
                ExportItem {
                    name: name.clone(),
                    kind: ExportKind::Type { fields: field_names(fields) },
                    is_pub: true,
                },
            ),
            Stmt::EnumDef { name, variants } => Some(
                ExportItem {
                    name: name.clone(),
                    kind: ExportKind::Enum { variants: variant_names(variants) },
                    is_pub: true,
                },
            ),
            Stmt::Let { name, .. } => Some(
                ExportItem { name: name.clone(), kind: ExportKind::Variable, is_pub: true },
            ),
            _ => None,
        };
        let ghost m0 = exports_of(stmts@.take(i as int));
        let ghost m1 = exports_of(stmts@.take(i as int + 1));
        match item {
            Some(it) => {
                assert(export_of(stmts@[i as int]) == Some((it.name@, export_kind_view(it.kind))));
                assert(m1 == m0.insert(it.name@, export_kind_view(it.kind)));
                let mut j: usize = 0;
                while j < r.len() && r[j].name != it.name
                    invariant
                        j <= r.len(),
                        forall|a: int| 0 <= a < j ==> r[a].name@ != it.name@,
                    decreases r.len() - j,
                {
                    j = j + 1;
                }
                let ghost r0 = r@;
                if j < r.len() {
                    r.set(j, it);
                    assert(forall|a: int| 0 <= a < r.len() && a != j ==> r[a] == r0[a]);
                    assert(r[j as int].name@ == r0[j as int].name@);
                    assert forall|n: Seq<char>| m1.contains_key(n) implies exists|a: int|
                        0 <= a < r.len() && #[trigger] r[a].name@ == n by {
                        if n != r[j as int].name@ {
                            let a = choose|a: int| 0 <= a < r0.len() && #[trigger] r0[a].name@ == n;
                            assert(r[a].name@ == n);
                        }
                    }
                } else {
                    r.push(it);
                    assert(forall|a: int| 0 <= a < r0.len() ==> r[a] == r0[a]);
                    assert forall|n: Seq<char>| m1.contains_key(n) implies exists|a: int|
                        0 <= a < r.len() && #[trigger] r[a].name@ == n by {
                        if n != r[r0.len() as int].name@ {
                            let a = choose|a: int| 0 <= a < r0.len() && #[trigger] r0[a].name@ == n;
                            assert(r[a].name@ == n);
                        }
                    }
                }
            },
            None => {
                assert(m1 == m0);
            },
        }
        i = i + 1;
    }
    assert(stmts@.take(stmts@.len() as int) =~= stmts@);
    r
}

/// The modules declared by `mod NAME` in a token stream, from token `i` on: the token
/// after `mod`, when it is a name, names a module (either way it is passed over); `use`
/// and the token after it are passed over.
pub open spec fn declared_modules(k: Seq<TokenKindView>, i: int) -> Seq<Seq<char>>
    decreases k.len() - i,
{
    if i < 0 || i >= k.len() {
        Seq::empty()
    } else {
        match k[i] {
            TokenKindView::Mod => if i + 1 < k.len() {
                match k[i + 1] {
                    TokenKindView::Ident(n) => seq![n] + declared_modules(k, i + 2),
                    _ => declared_modules(k, i + 2),
                }
            } else {
                Seq::empty()
            },
            TokenKindView::Use => if i + 1 < k.len() {
                declared_modules(k, i + 2)
            } else {
                Seq::empty()
            },
            _ => declared_modules(k, i + 1),
        }
    }
}

/// The kinds of a token list.
pub open spec fn kinds(v: Seq<Token>) -> Seq<TokenKindView> {
    v.map_values(|t: Token| t.kind@)
}

/// The names of the modules a source's tokens declare with `mod`, in order (the
/// modules then to be loaded).
pub fn mod_declarations(tokens: &Vec<Token>) -> (r: Vec<String>)
    ensures
        texts(r@) == declared_modules(kinds(tokens@), 0),
{
    let ghost k = kinds(tokens@);
    let mut r: Vec<String> = Vec::new();
    let mut i: usize = 0;
    assert(texts(r@) =~= Seq::<Seq<char>>::empty());
    assert(declared_modules(k, 0) =~= texts(r@) + declared_modules(k, 0));
    while i < tokens.len()
        invariant
            k == kinds(tokens@),
            i <= tokens@.len(),
            declared_modules(k, 0) == texts(r@) + declared_modules(k, i as int),
        decreases tokens@.len() - i,
    {
        let ghost r0 = texts(r@);
        let ghost i0 = i as int;
        match &tokens[i].kind {
            TokenKind::Mod => {
                if i + 1 < tokens.len() {
                    if let TokenKind::Ident(name) = &tokens[i + 1].kind {
                        r.push(name.clone());
                        assert(texts(r@) =~= r0.push(name@));
                        assert(r0 + (seq![name@] + declared_modules(k, i0 + 2)) =~= texts(r@)
                            + declared_modules(k, i0 + 2));
                    }
                    i = i + 2;
                } else {
                    assert(r0 + Seq::<Seq<char>>::empty() =~= r0);
                    i = tokens.len();
                }
            },
            TokenKind::Use => {
                if i + 1 < tokens.len() {
                    i = i + 2;
                } else {
                    assert(r0 + Seq::<Seq<char>>::empty() =~= r0);
                    i = tokens.len();
                }
            },
            _ => {
                i = i + 1;
            },
        }
    }
    assert(declared_modules(k, i as int) =~= Seq::<Seq<char>>::empty());
    assert(texts(r@) + Seq::<Seq<char>>::empty() =~= texts(r@));
    r
}

} // verus!
