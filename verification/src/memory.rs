//! The symbol table of a parse: the functions in scope and those that the
//! file being parsed exports.

use vstd::prelude::*;
use crate::error::Position;

verus! {

/// A function declaration as the symbol table keeps it.
#[derive(Debug)]
pub struct FunctionDecl {
    pub name: String,
    /// Whether files that import this one may see the function.
    pub is_public: bool,
    /// Where the name stands in the declaring file.
    pub position: Position,
}

/// The mathematical value of a [`FunctionDecl`].
pub ghost struct FunctionDeclView {
    pub name: Seq<char>,
    pub is_public: bool,
    pub position: Position,
}

impl View for FunctionDecl {
    type V = FunctionDeclView;

    open spec fn view(&self) -> FunctionDeclView {
        FunctionDeclView { name: self.name@, is_public: self.is_public, position: self.position }
    }
}

impl FunctionDecl {
    /// A copy of this declaration.
    pub fn duplicate(&self) -> (copy: FunctionDecl)
        ensures
            copy@ == self@,
    {
        FunctionDecl { name: self.name.clone(), is_public: self.is_public, position: self.position }
    }
}

/// A declaration that a file offers to the files that import it.
#[derive(Debug)]
pub enum ExportUnit {
    Function(FunctionDecl),
}

/// The mathematical value of an [`ExportUnit`].
pub ghost enum ExportUnitView {
    Function(FunctionDeclView),
}

impl View for ExportUnit {
    type V = ExportUnitView;

    open spec fn view(&self) -> ExportUnitView {
        match *self {
            ExportUnit::Function(decl) => ExportUnitView::Function(decl@),
        }
    }
}

/// The views of a list of declarations, in order.
pub open spec fn decl_views(functions: Seq<FunctionDecl>) -> Seq<FunctionDeclView> {
    functions.map_values(|d: FunctionDecl| d@)
}

/// The views of a list of export units, in order.
pub open spec fn export_views(exports: Seq<ExportUnit>) -> Seq<ExportUnitView> {
    exports.map_values(|u: ExportUnit| u@)
}

/// Whether `functions` holds a declaration named `name`.
pub open spec fn declares(functions: Seq<FunctionDeclView>, name: Seq<char>) -> bool {
    exists|i: int| 0 <= i < functions.len() && (#[trigger] functions[i]).name == name
}

/// Whether no two declarations of `functions` share a name.
pub open spec fn distinct_names(functions: Seq<FunctionDeclView>) -> bool {
    forall|i: int, j: int|
        0 <= i < j < functions.len() ==> (#[trigger] functions[i]).name != (
        #[trigger] functions[j]).name
}

/// The export units of the public declarations of `functions`, in order.
pub open spec fn public_units(functions: Seq<FunctionDeclView>) -> Seq<ExportUnitView>
    decreases functions.len(),
{
    if functions.len() == 0 {
        Seq::empty()
    } else if functions.last().is_public {
        public_units(functions.drop_last()).push(ExportUnitView::Function(functions.last()))
    } else {
        public_units(functions.drop_last())
    }
}

/// The invariant of a symbol table: no name is declared twice, and the
/// exports are the public declarations in scope, in their order.
pub open spec fn memory_ok(memory: MemoryView) -> bool {
    distinct_names(memory.functions) && memory.exports == public_units(memory.functions)
}

/// The name under which an export unit is declared.
pub open spec fn export_name(unit: ExportUnitView) -> Seq<char> {
    match unit {
        ExportUnitView::Function(decl) => decl.name,
    }
}

/// The declaration that an importing file gets for an export unit: the
/// same function, private.
pub open spec fn imported_decl(unit: ExportUnitView) -> FunctionDeclView {
    match unit {
        ExportUnitView::Function(decl) => FunctionDeclView {
            name: decl.name,
            is_public: false,
            position: decl.position,
        },
    }
}

/// The table after the export units are merged into it one by one, or the
/// first unit whose name was taken when its turn came.
pub open spec fn merged(functions: Seq<FunctionDeclView>, exports: Seq<ExportUnitView>) -> Result<
    Seq<FunctionDeclView>,
    ExportUnitView,
>
    decreases exports.len(),
{
    if exports.len() == 0 {
        Ok(functions)
    } else if declares(functions, export_name(exports[0])) {
        Err(exports[0])
    } else {
        merged(functions.push(imported_decl(exports[0])), exports.drop_first())
    }
}

/// The symbol table.
#[derive(Debug)]
pub struct Memory {
    /// The functions in scope, in the order of their declaration.
    pub functions: Vec<FunctionDecl>,
    /// What the file being parsed exports, in the order of declaration.
    pub exports: Vec<ExportUnit>,
}

/// The mathematical value of a [`Memory`].
pub ghost struct MemoryView {
    pub functions: Seq<FunctionDeclView>,
    pub exports: Seq<ExportUnitView>,
}

impl View for Memory {
    type V = MemoryView;

    open spec fn view(&self) -> MemoryView {
        MemoryView { functions: decl_views(self.functions@), exports: export_views(self.exports@) }
    }
}

/// The table after `decl` is declared in it: unchanged if the name is
/// taken; else `decl` is in scope and, if public, exported.
pub open spec fn declared(memory: MemoryView, decl: FunctionDeclView) -> MemoryView {
    if declares(memory.functions, decl.name) {
        memory
    } else {
        MemoryView {
            functions: memory.functions.push(decl),
            exports: if decl.is_public {
                memory.exports.push(ExportUnitView::Function(decl))
            } else {
                memory.exports
            },
        }
    }
}

impl Memory {
    /// The invariant of the table: no name is declared twice, and the
    /// exports are the public declarations in scope.
    pub open spec fn wf(&self) -> bool {
        memory_ok(self@)
    }

    /// An empty table.
    pub fn new() -> (memory: Memory)
        ensures
            memory.wf(),
            memory@.functions == Seq::<FunctionDeclView>::empty(),
            memory@.exports == Seq::<ExportUnitView>::empty(),
    {
        let memory = Memory { functions: Vec::new(), exports: Vec::new() };
        assert(memory@.functions =~= Seq::<FunctionDeclView>::empty());
        assert(memory@.exports =~= Seq::<ExportUnitView>::empty());
        memory
    }

    /// Whether a function named `name` is in scope.
    pub fn has_function(&self, name: &String) -> (found: bool)
        ensures
            found == declares(self@.functions, name@),
    {
        let mut i: usize = 0;
        while i < self.functions.len()
            invariant
                i <= self.functions.len(),
                forall|j: int| 0 <= j < i ==> (#[trigger] self@.functions[j]).name != name@,
            decreases self.functions.len() - i,
        {
            if self.functions[i].name == *name {
                assert(self@.functions[i as int].name == name@);
                return true;
            }
            i = i + 1;
        }
        false
    }

    /// Puts `decl`, which came in by an import and is private, in scope
    /// as it is. Returns `false` and changes nothing if the name is taken.
    pub fn add_existing_function_declaration(&mut self, decl: FunctionDecl) -> (added: bool)
        requires
            old(self).wf(),
            !decl@.is_public,
        ensures
            final(self).wf(),
            added == !declares(old(self)@.functions, decl@.name),
            final(self)@.exports == old(self)@.exports,
            final(self)@.functions == if added {
                old(self)@.functions.push(decl@)
            } else {
                old(self)@.functions
            },
    {
        if self.has_function(&decl.name) {
            false
        } else {
            let ghost before = self@.functions;
            self.functions.push(decl);
            assert(self@.functions =~= before.push(decl@));
            assert(before.push(decl@).drop_last() =~= before);
            true
        }
    }

    /// Declares `decl`: puts it in scope and, if it is public, among the
    /// exports. Returns `false` and changes nothing if the name is taken.
    pub fn add_function(&mut self, decl: FunctionDecl) -> (added: bool)
        requires
            old(self).wf(),
        ensures
            final(self).wf(),
            added == !declares(old(self)@.functions, decl@.name),
            final(self)@ == declared(old(self)@, decl@),
    {
        if self.has_function(&decl.name) {
            false
        } else {
            let ghost before = self@;
            if decl.is_public {
                self.exports.push(ExportUnit::Function(decl.duplicate()));
                assert(self@.exports =~= before.exports.push(ExportUnitView::Function(decl@)));
            }
            self.functions.push(decl);
            assert(self@.functions =~= before.functions.push(decl@));
            assert(before.functions.push(decl@).drop_last() =~= before.functions);
            true
        }
    }
}

/// The exports of a symbol table bear different names, each the name of
/// a public declaration in scope.
pub proof fn lemma_exports_distinct(functions: Seq<FunctionDeclView>)
    requires
        distinct_names(functions),
    ensures
        forall|i: int|
            0 <= i < public_units(functions).len() ==> declares(
                functions,
                export_name(#[trigger] public_units(functions)[i]),
            ),
        forall|i: int, j: int|
            0 <= i < j < public_units(functions).len() ==> export_name(
                #[trigger] public_units(functions)[i],
            ) != export_name(#[trigger] public_units(functions)[j]),
    decreases functions.len(),
{
    if functions.len() > 0 {
        let front = functions.drop_last();
        let units = public_units(functions);
        assert forall|a: int, b: int| 0 <= a < b < front.len() implies (#[trigger] front[a]).name
            != (#[trigger] front[b]).name by {
            assert(front[a] == functions[a] && front[b] == functions[b]);
        }
        lemma_exports_distinct(front);
        assert forall|i: int| 0 <= i < units.len() implies declares(
            functions,
            export_name(#[trigger] units[i]),
        ) by {
            if i < public_units(front).len() {
                let k = choose|k: int|
                    0 <= k < front.len() && (#[trigger] front[k]).name == export_name(
                        public_units(front)[i],
                    );
                assert(functions[k] == front[k]);
            } else {
                assert(functions[functions.len() - 1].name == export_name(units[i]));
            }
        }
        assert forall|i: int, j: int| 0 <= i < j < units.len() implies export_name(
            #[trigger] units[i],
        ) != export_name(#[trigger] units[j]) by {
            if j >= public_units(front).len() {
                let k = choose|k: int|
                    0 <= k < front.len() && (#[trigger] front[k]).name == export_name(
                        public_units(front)[i],
                    );
                assert(functions[k] == front[k]);
                assert(functions[functions.len() - 1] == functions.last());
            }
        }
    }
}

/// Declaring a function whose name is free keeps the invariant of the
/// table.
pub proof fn lemma_declared_keeps_order(memory: MemoryView, decl: FunctionDeclView)
    requires
        memory_ok(memory),
    ensures
        memory_ok(declared(memory, decl)),
{
    if !declares(memory.functions, decl.name) {
        let after = memory.functions.push(decl);
        assert(after.drop_last() =~= memory.functions);
        assert forall|i: int, j: int| 0 <= i < j < after.len() implies (#[trigger] after[i]).name
            != (#[trigger] after[j]).name by {
            if j == memory.functions.len() {
                assert(after[i] == memory.functions[i]);
            }
        }
    }
}

/// Private declarations behind a table add nothing to its exports.
pub proof fn lemma_private_adds_no_export(functions: Seq<FunctionDeclView>, added: Seq<FunctionDeclView>)
    requires
        forall|i: int| 0 <= i < added.len() ==> !(#[trigger] added[i]).is_public,
    ensures
        public_units(functions + added) == public_units(functions),
    decreases added.len(),
{
    if added.len() == 0 {
        assert(functions + added =~= functions);
    } else {
        let all = functions + added;
        assert(all.drop_last() =~= functions + added.drop_last());
        assert(all.last() == added.last());
        lemma_private_adds_no_export(functions, added.drop_last());
    }
}

/// A merge that succeeds keeps the invariant of the table.
pub proof fn lemma_merged_keeps_order(memory: MemoryView, exports: Seq<ExportUnitView>)
    requires
        memory_ok(memory),
        merged(memory.functions, exports) is Ok,
    ensures
        memory_ok(
            MemoryView { functions: merged(memory.functions, exports)->Ok_0, exports: memory.exports },
        ),
{
    lemma_merged_ok(memory.functions, exports);
    lemma_private_adds_no_export(
        memory.functions,
        exports.map_values(|u: ExportUnitView| imported_decl(u)),
    );
}

/// Where the export units bear different names, a merge fails exactly
/// when one of those names is declared in the table.
pub proof fn lemma_merged_distinct(functions: Seq<FunctionDeclView>, exports: Seq<ExportUnitView>)
    requires
        forall|i: int, j: int|
            0 <= i < j < exports.len() ==> export_name(#[trigger] exports[i]) != export_name(
                #[trigger] exports[j],
            ),
    ensures
        merged(functions, exports) is Ok <==> forall|i: int|
            0 <= i < exports.len() ==> !declares(functions, export_name(#[trigger] exports[i])),
{
    lemma_merged_err(functions, exports);
    if merged(functions, exports) is Err {
        let i = choose|i: int| name_taken(functions, exports, i);
        assert(declares(functions, export_name(exports[i])));
    }
    if exists|i: int| 0 <= i < exports.len() && declares(functions, export_name(#[trigger] exports[i])) {
        let i = choose|i: int|
            0 <= i < exports.len() && declares(functions, export_name(#[trigger] exports[i]));
        assert(name_taken(functions, exports, i));
    }
}

/// A merge that succeeds appends the imported form of every unit, in
/// order, and keeps the names distinct.
pub proof fn lemma_merged_ok(functions: Seq<FunctionDeclView>, exports: Seq<ExportUnitView>)
    requires
        merged(functions, exports) is Ok,
    ensures
        merged(functions, exports)->Ok_0 == functions + exports.map_values(
            |u: ExportUnitView| imported_decl(u),
        ),
        distinct_names(functions) ==> distinct_names(merged(functions, exports)->Ok_0),
    decreases exports.len(),
{
    let add = exports.map_values(|u: ExportUnitView| imported_decl(u));
    if exports.len() == 0 {
        assert(functions + add =~= functions);
    } else {
        let next = functions.push(imported_decl(exports[0]));
        lemma_merged_ok(next, exports.drop_first());
        let rest = exports.drop_first().map_values(|u: ExportUnitView| imported_decl(u));
        assert(next + rest =~= functions + add);
        if distinct_names(functions) {
            assert forall|i: int, j: int| 0 <= i < j < next.len() implies (#[trigger] next[i]).name
                != (#[trigger] next[j]).name by {
                if j == functions.len() {
                    assert(next[i] == functions[i]);
                }
            }
        }
    }
}

/// Whether the name of unit `i` is taken when its turn comes: by a function
/// that was in scope before the merge, or by a unit that came earlier.
pub open spec fn name_taken(functions: Seq<FunctionDeclView>, exports: Seq<ExportUnitView>, i: int) -> bool {
    0 <= i < exports.len() && (declares(functions, export_name(exports[i])) || exists|k: int|
        0 <= k < i && export_name(#[trigger] exports[k]) == export_name(exports[i]))
}

/// A merge fails exactly when the name of some unit is taken.
pub proof fn lemma_merged_err(functions: Seq<FunctionDeclView>, exports: Seq<ExportUnitView>)
    ensures
        merged(functions, exports) is Err <==> exists|i: int|
            name_taken(functions, exports, i),
    decreases exports.len(),
{
    if exports.len() == 0 {
    } else if declares(functions, export_name(exports[0])) {
        assert(name_taken(functions, exports, 0));
    } else {
        let first = imported_decl(exports[0]);
        let next = functions.push(first);
        let rest = exports.drop_first();
        lemma_merged_err(next, rest);
        if merged(next, rest) is Err {
            let i = choose|i: int| name_taken(next, rest, i);
            assert(rest[i] == exports[i + 1]);
            if declares(next, export_name(rest[i])) {
                let d = choose|d: int|
                    0 <= d < next.len() && (#[trigger] next[d]).name == export_name(rest[i]);
                if d < functions.len() {
                    assert(functions[d] == next[d]);
                    assert(declares(functions, export_name(exports[i + 1])));
                } else {
                    assert(export_name(exports[0]) == export_name(exports[i + 1]));
                }
            } else {
                let k = choose|k: int|
                    0 <= k < i && export_name(#[trigger] rest[k]) == export_name(rest[i]);
                assert(rest[k] == exports[k + 1]);
            }
            assert(name_taken(functions, exports, i + 1));
        }
        if exists|i: int| name_taken(functions, exports, i) {
            let i = choose|i: int| name_taken(functions, exports, i);
            assert(i > 0);
            assert(rest[i - 1] == exports[i]);
            if declares(functions, export_name(exports[i])) {
                let d = choose|d: int|
                    0 <= d < functions.len() && (#[trigger] functions[d]).name == export_name(
                        exports[i],
                    );
                assert(next[d] == functions[d]);
                assert(declares(next, export_name(rest[i - 1])));
            } else {
                let k = choose|k: int|
                    0 <= k < i && export_name(#[trigger] exports[k]) == export_name(exports[i]);
                if k == 0 {
                    assert(next[functions.len() as int].name == export_name(exports[0]));
                    assert(declares(next, export_name(rest[i - 1])));
                } else {
                    assert(rest[k - 1] == exports[k]);
                }
            }
            assert(name_taken(next, rest, i - 1));
        }
    }
}

} // verus!
