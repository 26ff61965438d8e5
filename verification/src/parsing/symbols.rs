//! Symbols and the names that identify them.

use vstd::prelude::*;

use crate::text::{join_spec, opt_text, texts};

verus! {

/// What a symbol is in its language.
#[derive(Debug, Clone, Copy, PartialEq, Eq, Structural)]
pub enum SymbolKind {
    Function,
    Method,
    Struct,
    Trait,
    Impl,
    Class,
    Module,
    Interface,
}

/// A symbol name together with the file and the scopes that enclose it.
#[derive(Debug, Clone)]
pub struct QualifiedSymbol {
    pub file: String,
    pub scope_path: Vec<String>,
    pub name: String,
}

/// What a [`QualifiedSymbol`] says.
#[verifier::ext_equal]
pub struct QualifiedSymbolView {
    pub file: Seq<char>,
    pub scope_path: Seq<Seq<char>>,
    pub name: Seq<char>,
}

/// A symbol found in a source file. Lines are 1-indexed and inclusive.
#[derive(Debug, Clone)]
pub struct Symbol {
    pub qualified: QualifiedSymbol,
    pub kind: SymbolKind,
    pub line_start: u32,
    pub line_end: u32,
    pub signature: Option<String>,
    pub parent_fqn: Option<String>,
}

/// What a [`Symbol`] says.
#[verifier::ext_equal]
pub struct SymbolView {
    pub qualified: QualifiedSymbolView,
    pub kind: SymbolKind,
    pub line_start: u32,
    pub line_end: u32,
    pub signature: Option<Seq<char>>,
    pub parent_fqn: Option<Seq<char>>,
}

/// The record id of the symbol whose fully qualified name is `fqn`.
pub open spec fn record_id_of(fqn: Seq<char>) -> Seq<char> {
    "symbol:⟨"@ + fqn + "⟩"@
}

impl QualifiedSymbolView {
    /// The fully qualified name: file, scopes and name, separated by `::`.
    pub open spec fn fqn(self) -> Seq<char> {
        join_spec(seq![self.file] + self.scope_path + seq![self.name], "::"@)
    }

    /// The record id that follows from the fully qualified name.
    pub open spec fn record_id(self) -> Seq<char> {
        record_id_of(self.fqn())
    }
}

impl View for QualifiedSymbol {
    type V = QualifiedSymbolView;

    open spec fn view(&self) -> QualifiedSymbolView {
        QualifiedSymbolView {
            file: self.file@,
            scope_path: texts(self.scope_path@),
            name: self.name@,
        }
    }
}

impl View for Symbol {
    type V = SymbolView;

    open spec fn view(&self) -> SymbolView {
        SymbolView {
            qualified: self.qualified@,
            kind: self.kind,
            line_start: self.line_start,
            line_end: self.line_end,
            signature: opt_text(self.signature),
            parent_fqn: opt_text(self.parent_fqn),
        }
    }
}

/// The record id of the symbol whose fully qualified name is `fqn`.
pub fn record_id_for(fqn: &str) -> (res: String)
    ensures
        res@ == record_id_of(fqn@),
{
    let mut res = "symbol:⟨".to_owned();
    res.append(fqn);
    res.append("⟩");
    res
}

impl QualifiedSymbol {
    /// The fully qualified name.
    pub fn fqn(&self) -> (res: String)
        ensures
            res@ == self@.fqn(),
    {
        let mut res = self.file.clone();
        let ghost parts = seq![self.file@] + texts(self.scope_path@) + seq![self.name@];
        assert(parts.take(1) =~= seq![self.file@]);
        let mut i: usize = 0;
        while i < self.scope_path.len()
            invariant
                i <= self.scope_path@.len(),
                parts == seq![self.file@] + texts(self.scope_path@) + seq![self.name@],
                res@ == join_spec(parts.take(i + 1), "::"@),
            decreases self.scope_path@.len() - i,
        {
            res.append("::");
            res.append(self.scope_path[i].as_str());
            i += 1;
            assert(parts.take(i + 1).drop_last() =~= parts.take(i as int));
            assert(parts.take(i + 1).last() == self.scope_path@[i - 1]@);
        }
        res.append("::");
        res.append(self.name.as_str());
        assert(parts.drop_last() =~= parts.take(i + 1));
        res
    }

    /// The deterministic record id of this symbol.
    pub fn record_id(&self) -> (res: String)
        ensures
            res@ == self@.record_id(),
    {
        record_id_for(self.fqn().as_str())
    }
}

/// A fully qualified name holds the file, every scope from the outermost in, and the name,
/// with `::` between them; a record id encloses it.
pub proof fn law_qualified_name(
    file: Seq<char>,
    scopes: Seq<Seq<char>>,
    inner: Seq<char>,
    name: Seq<char>,
)
    ensures
        (QualifiedSymbolView { file, scope_path: Seq::empty(), name }).fqn() == file + "::"@ + name,
        (QualifiedSymbolView { file, scope_path: scopes.push(inner), name }).fqn() == (
        QualifiedSymbolView { file, scope_path: scopes, name: inner }).fqn() + "::"@ + name,
        (QualifiedSymbolView { file, scope_path: scopes, name }).record_id() == "symbol:⟨"@ + (
        QualifiedSymbolView { file, scope_path: scopes, name }).fqn() + "⟩"@,
{
    let none = Seq::<Seq<char>>::empty();
    let short = seq![file] + none + seq![name];
    assert(short.drop_last() =~= seq![file]);
    assert(short.last() == name);
    assert(join_spec(seq![file], "::"@) == file);
    let deep = seq![file] + scopes.push(inner) + seq![name];
    assert(deep.drop_last() =~= seq![file] + scopes + seq![inner]);
    assert(deep.last() == name);
}

/// A symbol says what its fields hold.
pub proof fn law_symbol_says_what_it_holds(sym: Symbol)
    ensures
        sym@.kind == sym.kind,
        sym@.line_start == sym.line_start,
        sym@.line_end == sym.line_end,
        sym.signature is None ==> sym@.signature is None,
        sym.signature is Some ==> sym@.signature == Some(sym.signature->0@),
        sym.parent_fqn is None ==> sym@.parent_fqn is None,
        sym.parent_fqn is Some ==> sym@.parent_fqn == Some(sym.parent_fqn->0@),
        sym@.qualified == sym.qualified@,
        sym.qualified@.file == sym.qualified.file@,
        sym.qualified@.name == sym.qualified.name@,
        sym.qualified@.scope_path.len() == sym.qualified.scope_path@.len(),
        forall|i: int|
            0 <= i < sym.qualified.scope_path@.len() ==> #[trigger] sym.qualified@.scope_path[i]
                == sym.qualified.scope_path@[i]@,
{
}

} // verus!
