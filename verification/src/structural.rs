//! The structural layer: symbols, routes and imports found in source.
use vstd::prelude::*;
use crate::model::{Evidence, EvidenceView, Tier};
use crate::resource::{Identity, Location, Relationship, RelationshipView, Resource, ResourceView};
use crate::table::TextMap;
use crate::text::decimal;
use crate::text::{copied_option, number, owned};

verus! {

#[derive(Clone, Copy, Debug, PartialEq, Eq, Structural)]
pub enum SymbolKind {
    Function,
    Method,
    Class,
    Struct,
    Enum,
    Interface,
    Trait,
    Type,
    Constant,
    Module,
}

impl SymbolKind {
    pub open spec fn label_text(self) -> Seq<char> {
        match self {
            SymbolKind::Function => "Function"@,
            SymbolKind::Method => "Method"@,
            SymbolKind::Class => "Class"@,
            SymbolKind::Struct => "Struct"@,
            SymbolKind::Enum => "Enum"@,
            SymbolKind::Interface => "Interface"@,
            SymbolKind::Trait => "Trait"@,
            SymbolKind::Type => "Type"@,
            SymbolKind::Constant => "Constant"@,
            SymbolKind::Module => "Module"@,
        }
    }

    pub fn label(&self) -> (r: &'static str)
        ensures
            r@ == self.label_text(),
    {
        match self {
            SymbolKind::Function => "Function",
            SymbolKind::Method => "Method",
            SymbolKind::Class => "Class",
            SymbolKind::Struct => "Struct",
            SymbolKind::Enum => "Enum",
            SymbolKind::Interface => "Interface",
            SymbolKind::Trait => "Trait",
            SymbolKind::Type => "Type",
            SymbolKind::Constant => "Constant",
            SymbolKind::Module => "Module",
        }
    }
}

/// A named thing that source code declares.
#[derive(Debug)]
pub struct Symbol {
    pub name: String,
    pub kind: SymbolKind,
    pub file: String,
    pub linked_concept: Option<String>,
    pub line: usize,
}

pub struct SymbolView {
    pub name: Seq<char>,
    pub kind: SymbolKind,
    pub file: Seq<char>,
    pub linked_concept: Option<Seq<char>>,
    pub line: nat,
}

impl DeepView for Symbol {
    type V = SymbolView;

    open spec fn deep_view(&self) -> SymbolView {
        SymbolView {
            name: self.name@,
            kind: self.kind,
            file: self.file@,
            linked_concept: self.linked_concept.deep_view(),
            line: self.line as nat,
        }
    }
}

/// A route that source code declares, with its handler.
#[derive(Debug)]
pub struct Route {
    pub method: String,
    pub path: String,
    pub handler: String,
    pub file: String,
    pub linked_concept: Option<String>,
}

pub struct RouteView {
    pub method: Seq<char>,
    pub path: Seq<char>,
    pub handler: Seq<char>,
    pub file: Seq<char>,
    pub linked_concept: Option<Seq<char>>,
}

impl DeepView for Route {
    type V = RouteView;

    open spec fn deep_view(&self) -> RouteView {
        RouteView {
            method: self.method@,
            path: self.path@,
            handler: self.handler@,
            file: self.file@,
            linked_concept: self.linked_concept.deep_view(),
        }
    }
}

/// An import, with the file that it resolves to where that is exactly one.
#[derive(Debug)]
pub struct Import {
    pub from_file: String,
    pub to_module: String,
    pub names: Vec<String>,
    pub resolved: Option<Relationship>,
}

pub struct ImportView {
    pub from_file: Seq<char>,
    pub to_module: Seq<char>,
    pub names: Seq<Seq<char>>,
    pub resolved: Option<RelationshipView>,
}

impl DeepView for Import {
    type V = ImportView;

    open spec fn deep_view(&self) -> ImportView {
        ImportView {
            from_file: self.from_file@,
            to_module: self.to_module@,
            names: self.names.deep_view(),
            resolved: self.resolved.deep_view(),
        }
    }
}

/// Everything the structural layer knows of a repository.
#[derive(Debug)]
pub struct StructuralGraph {
    pub symbols: TextMap<Symbol>,
    pub routes: Vec<Route>,
    pub imports: Vec<Import>,
    /// The files that were looked at, in ascending order.
    pub files: Vec<String>,
}

pub struct GraphView {
    pub symbols: Seq<(Seq<char>, SymbolView)>,
    pub routes: Seq<RouteView>,
    pub imports: Seq<ImportView>,
    pub files: Seq<Seq<char>>,
}

impl DeepView for StructuralGraph {
    type V = GraphView;

    open spec fn deep_view(&self) -> GraphView {
        GraphView {
            symbols: self.symbols.deep_view(),
            routes: self.routes.deep_view(),
            imports: self.imports.deep_view(),
            files: self.files.deep_view(),
        }
    }
}

pub open spec fn empty_graph() -> GraphView {
    GraphView { symbols: seq![], routes: seq![], imports: seq![], files: seq![] }
}

impl Default for StructuralGraph {
    fn default() -> (r: StructuralGraph)
        ensures
            r.deep_view() == empty_graph(),
    {
        let routes: Vec<Route> = Vec::new();
        let imports: Vec<Import> = Vec::new();
        let files: Vec<String> = Vec::new();
        assert(routes.deep_view() =~= seq![]);
        assert(imports.deep_view() =~= seq![]);
        assert(files.deep_view() =~= seq![]);
        StructuralGraph { symbols: TextMap::new(), routes, imports, files }
    }
}

pub open spec fn symbol_fact(s: SymbolView) -> EvidenceView {
    EvidenceView {
        tier: Tier::Declared,
        what: s.kind.label_text() + " declared in "@ + s.file + ":"@ + decimal(s.line),
    }
}

pub open spec fn symbol_resource(s: SymbolView) -> ResourceView {
    ResourceView {
        id: s.name,
        kind: "symbol"@,
        domain: "code"@,
        file: s.file,
        line: Some(s.line as int),
        attributes: seq![],
        evidence: seq![symbol_fact(s)],
    }
}

impl Symbol {
    pub fn copy(&self) -> (r: Symbol)
        ensures
            r.deep_view() == self.deep_view(),
    {
        Symbol {
            name: owned(self.name.as_str()),
            kind: self.kind,
            file: owned(self.file.as_str()),
            linked_concept: copied_option(&self.linked_concept),
            line: self.line,
        }
    }

    /// The one piece of evidence for a symbol: where it is declared.
    pub fn evidence(&self) -> (r: Evidence)
        ensures
            r.deep_view() == symbol_fact(self.deep_view()),
    {
        let mut what = owned(self.kind.label());
        what.append(" declared in ");
        what.append(self.file.as_str());
        what.append(":");
        what.append(number(self.line as u64).as_str());
        Evidence { tier: Tier::Declared, what }
    }

    /// This symbol in the general shape of a resource.
    pub fn to_resource(&self) -> (r: Resource)
        ensures
            r.deep_view() == symbol_resource(self.deep_view()),
    {
        let mut evidence: Vec<Evidence> = Vec::new();
        evidence.push(self.evidence());
        assert(evidence.deep_view() =~= seq![symbol_fact(self.deep_view())]);
        Resource {
            id: Identity(owned(self.name.as_str())),
            kind: owned("symbol"),
            domain: owned("code"),
            location: Location { file: owned(self.file.as_str()), line: Some(self.line) },
            attributes: TextMap::new(),
            evidence,
        }
    }
}

impl Route {
    pub fn copy(&self) -> (r: Route)
        ensures
            r.deep_view() == self.deep_view(),
    {
        Route {
            method: owned(self.method.as_str()),
            path: owned(self.path.as_str()),
            handler: owned(self.handler.as_str()),
            file: owned(self.file.as_str()),
            linked_concept: copied_option(&self.linked_concept),
        }
    }
}

} // verus!
