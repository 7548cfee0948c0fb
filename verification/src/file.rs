//! The compilation unit: three name-keyed declaration tables built during
//! parsing and only read afterwards. Within one table a later declaration
//! with the same name silently replaces the earlier one.

use vstd::prelude::*;
use vstd::string::*;

use crate::ast::structure::{
    FunctionDef, FunV, StructDef, StructV, Variable, VarV,
};
use crate::data_type::DataType;
use crate::diagnostics::{SyntaxError, TypeError};
use crate::get_type::{infer_type, HasType};
use crate::lexer::token::TokenType;
use crate::lexer::tokenizer::{lemma_lines_end, lines_end, token_at, token_end, token_is_punct};
use crate::parser::{lemma_token_past_end, lemma_token_progress_all, lemma_token_some, sp_decl, DeclV, Parser};
use crate::text::str_eq;

verus! {

/// Mathematical image of a compilation unit: its three name-keyed tables.
pub struct FileV {
    pub name: Seq<char>,
    pub functions: Map<Seq<char>, FunV>,
    pub variables: Map<Seq<char>, VarV>,
    pub structs: Map<Seq<char>, StructV>,
}

// ---- Name-keyed tables as folds over declaration order ----

/// The map a sequence of named entries builds up in order: a later entry
/// with the same key silently replaces an earlier one.
pub open spec fn table_fold<V>(s: Seq<(Seq<char>, V)>) -> Map<Seq<char>, V>
    decreases s.len(),
{
    if s.len() == 0 {
        Map::empty()
    } else {
        table_fold(s.subrange(0, s.len() - 1)).insert(s[s.len() - 1].0, s[s.len() - 1].1)
    }
}

/// No two entries carry the same key.
pub open spec fn keys_unique<V>(s: Seq<(Seq<char>, V)>) -> bool {
    forall|i: int, j: int| 0 <= i < j < s.len() ==> s[i].0 != s[j].0
}

/// With unique keys, the fold holds exactly the entries, each under its
/// own key.
pub proof fn lemma_table_fold_model<V>(s: Seq<(Seq<char>, V)>)
    requires
        keys_unique(s),
    ensures
        forall|i: int| 0 <= i < s.len() ==> table_fold(s).contains_key((#[trigger] s[i]).0)
            && table_fold(s)[s[i].0] == s[i].1,
        forall|n: Seq<char>| table_fold(s).contains_key(n) ==> exists|i: int|
            0 <= i < s.len() && (#[trigger] s[i]).0 == n,
    decreases s.len(),
{
    if s.len() > 0 {
        let butlast = s.subrange(0, s.len() - 1);
        let last = s[s.len() - 1];
        assert forall|i: int, j: int| 0 <= i < j < butlast.len() implies butlast[i].0
            != butlast[j].0 by {
            assert(butlast[i] == s[i]);
            assert(butlast[j] == s[j]);
        }
        lemma_table_fold_model(butlast);
        assert(table_fold(s) == table_fold(butlast).insert(last.0, last.1));
        assert forall|i: int| 0 <= i < s.len() implies table_fold(s).contains_key(
            (#[trigger] s[i]).0,
        ) && table_fold(s)[s[i].0] == s[i].1 by {
            if i < s.len() - 1 {
                assert(butlast[i] == s[i]);
                assert(table_fold(butlast).contains_key(butlast[i].0));
                assert(s[i].0 != last.0);
            }
        }
        assert forall|n: Seq<char>| table_fold(s).contains_key(n) implies exists|i: int|
            0 <= i < s.len() && (#[trigger] s[i]).0 == n by {
            if n == last.0 {
                assert((s[s.len() - 1]).0 == n);
            } else {
                assert(table_fold(butlast).contains_key(n));
                let i = choose|i: int| 0 <= i < butlast.len() && (#[trigger] butlast[i]).0 == n;
                assert(butlast[i] == s[i]);
                assert((s[i]).0 == n);
            }
        }
    }
}

/// Replacing the entry that holds a key updates the fold at that key.
pub proof fn lemma_table_fold_update<V>(s: Seq<(Seq<char>, V)>, i: int, e: (Seq<char>, V))
    requires
        keys_unique(s),
        0 <= i < s.len(),
        s[i].0 == e.0,
    ensures
        table_fold(s.update(i, e)) == table_fold(s).insert(e.0, e.1),
    decreases s.len(),
{
    let s2 = s.update(i, e);
    let butlast = s.subrange(0, s.len() - 1);
    if i == s.len() - 1 {
        assert(s2.subrange(0, s2.len() - 1) =~= butlast);
        assert(table_fold(s).insert(e.0, e.1) =~= table_fold(butlast).insert(e.0, e.1));
    } else {
        assert(keys_unique(butlast));
        assert(s2.subrange(0, s2.len() - 1) =~= butlast.update(i, e));
        lemma_table_fold_update(butlast, i, e);
        assert(s[s.len() - 1].0 != e.0);
        assert(table_fold(butlast).insert(e.0, e.1).insert(s[s.len() - 1].0, s[s.len() - 1].1)
            =~= table_fold(butlast).insert(s[s.len() - 1].0, s[s.len() - 1].1).insert(e.0, e.1));
    }
}

/// Appending an entry inserts it into the fold.
pub proof fn lemma_table_fold_push<V>(s: Seq<(Seq<char>, V)>, e: (Seq<char>, V))
    ensures
        table_fold(s.push(e)) == table_fold(s).insert(e.0, e.1),
{
    assert(s.push(e).subrange(0, s.push(e).len() - 1) =~= s);
}

/// Replacing an entry by one under the same key keeps keys unique.
pub proof fn lemma_keys_unique_update<V>(s: Seq<(Seq<char>, V)>, i: int, e: (Seq<char>, V))
    requires
        keys_unique(s),
        0 <= i < s.len(),
        s[i].0 == e.0,
    ensures
        keys_unique(s.update(i, e)),
{
    let s2 = s.update(i, e);
    assert forall|a: int, b: int| 0 <= a < b < s2.len() implies s2[a].0 != s2[b].0 by {
        assert(s2[a].0 == s[a].0);
        assert(s2[b].0 == s[b].0);
    }
}

/// Appending an entry under a fresh key keeps keys unique.
pub proof fn lemma_keys_unique_push<V>(s: Seq<(Seq<char>, V)>, e: (Seq<char>, V))
    requires
        keys_unique(s),
        forall|j: int| 0 <= j < s.len() ==> (#[trigger] s[j]).0 != e.0,
    ensures
        keys_unique(s.push(e)),
{
    let s2 = s.push(e);
    assert forall|a: int, b: int| 0 <= a < b < s2.len() implies s2[a].0 != s2[b].0 by {
        assert(s2[a] == s[a]);
        if b < s.len() {
            assert(s2[b] == s[b]);
        }
    }
}

/// Law of the declaration tables: re-declaring a name already present
/// silently replaces the previous entry — the table afterwards is exactly
/// the table that never saw the first declaration.
pub proof fn lemma_redeclaration_replaces<V>(
    table: Map<Seq<char>, V>,
    name: Seq<char>,
    first: V,
    second: V,
)
    ensures
        table.insert(name, first).insert(name, second) == table.insert(name, second),
{
    assert(table.insert(name, first).insert(name, second) =~= table.insert(name, second));
}

// ---- Keyed images of the three declaration kinds ----

/// `(name, image)` pairs of a function table, in declaration order.
pub open spec fn fun_pairs(s: Seq<FunctionDef>) -> Seq<(Seq<char>, FunV)> {
    Seq::new(s.len(), |i: int| (s[i].name@, s[i].deep()))
}

/// `(name, image)` pairs of a global-variable table, in declaration order.
pub open spec fn var_pairs(s: Seq<Variable>) -> Seq<(Seq<char>, VarV)> {
    Seq::new(s.len(), |i: int| (s[i].name@, s[i].deep()))
}

/// `(name, image)` pairs of a struct table, in declaration order.
pub open spec fn struct_pairs(s: Seq<StructDef>) -> Seq<(Seq<char>, StructV)> {
    Seq::new(s.len(), |i: int| (s[i].name@, s[i].deep()))
}

/// Image of an empty unit under the given name.
pub open spec fn empty_unit(name: Seq<char>) -> FileV {
    FileV {
        name,
        functions: Map::empty(),
        variables: Map::empty(),
        structs: Map::empty(),
    }
}

/// One declaration folded into the unit's tables: a later declaration with
/// the same name silently replaces the earlier one.
pub open spec fn apply_decl(f: FileV, d: DeclV) -> FileV {
    match d {
        DeclV::Function(fd) => FileV { functions: f.functions.insert(fd.name, fd), ..f },
        DeclV::Global(v) => FileV { variables: f.variables.insert(v.name, v), ..f },
        DeclV::Struct(sd) => FileV { structs: f.structs.insert(sd.name, sd), ..f },
    }
}

/// The unit a whole token stream builds from `f` on: nothing more at end
/// of input, else one top-level declaration folded in, the line breaks
/// after it skipped, and the rest of the stream.
pub open spec fn sp_unit(s: Seq<char>, i: int, f: FileV) -> Option<FileV>
    decreases s.len() - i,
        via sp_unit_dec
{
    if token_at(s, i) is None {
        Some(f)
    } else {
        match sp_decl(s, i) {
            Some(p) => if i < p.1 <= s.len() {
                sp_unit(s, lines_end(s, p.1), apply_decl(f, p.0))
            } else {
                None
            },
            None => None,
        }
    }
}

#[via_fn]
proof fn sp_unit_dec(s: Seq<char>, i: int, f: FileV) {
    lemma_token_progress_all(s);
}

// ---- The compilation unit ----

/// A parsed compilation unit: name-keyed tables of functions, global
/// variables and structs, keyed by declaration name.
#[derive(Debug)]
pub struct File {
    pub name: String,
    pub functions: Vec<FunctionDef>,
    pub variables: Vec<Variable>,
    pub structs: Vec<StructDef>,
}

impl File {
    /// The function declarations, in declaration order.
    pub open spec fn spec_functions(&self) -> Seq<FunctionDef> {
        self.functions@
    }

    /// The global variable declarations, in declaration order.
    pub open spec fn spec_variables(&self) -> Seq<Variable> {
        self.variables@
    }

    /// The struct declarations, in declaration order.
    pub open spec fn spec_structs(&self) -> Seq<StructDef> {
        self.structs@
    }

    /// Within each table, every name occurs once.
    pub open spec fn wf(&self) -> bool {
        &&& keys_unique(fun_pairs(self.spec_functions()))
        &&& keys_unique(var_pairs(self.spec_variables()))
        &&& keys_unique(struct_pairs(self.spec_structs()))
    }

    /// The mathematical image of this unit: its three tables as maps.
    pub open spec fn deep(&self) -> FileV {
        FileV {
            name: self.name@,
            functions: table_fold(fun_pairs(self.spec_functions())),
            variables: table_fold(var_pairs(self.spec_variables())),
            structs: table_fold(struct_pairs(self.spec_structs())),
        }
    }

    /// An empty unit under the given name.
    pub fn new(name: &str) -> (r: File)
        ensures
            r.wf(),
            r.name@ == name@,
            r.deep().functions == Map::<Seq<char>, FunV>::empty(),
            r.deep().variables == Map::<Seq<char>, VarV>::empty(),
            r.deep().structs == Map::<Seq<char>, StructV>::empty(),
    {
        let r = File {
            name: name.to_owned(),
            functions: Vec::new(),
            variables: Vec::new(),
            structs: Vec::new(),
        };
        proof {
            assert(fun_pairs(r.functions@) =~= Seq::<(Seq<char>, FunV)>::empty());
            assert(var_pairs(r.variables@) =~= Seq::<(Seq<char>, VarV)>::empty());
            assert(struct_pairs(r.structs@) =~= Seq::<(Seq<char>, StructV)>::empty());
        }
        r
    }

    /// Number of function declarations.
    pub fn function_count(&self) -> (n: usize)
        ensures
            n == self.spec_functions().len(),
    {
        self.functions.len()
    }

    /// The function declared at position `i`.
    pub fn function_at(&self, i: usize) -> (r: &FunctionDef)
        requires
            i < self.spec_functions().len(),
        ensures
            *r == self.spec_functions()[i as int],
    {
        &self.functions[i]
    }

    /// With unique names, each table holds exactly its declarations.
    pub proof fn lemma_tables(&self)
        requires
            self.wf(),
        ensures
            forall|i: int| 0 <= i < self.spec_functions().len() ==> self.deep().functions
                .contains_key(#[trigger] self.spec_functions()[i].name@) && self.deep().functions[
                self.spec_functions()[i].name@] == self.spec_functions()[i].deep(),
            forall|n: Seq<char>| self.deep().functions.contains_key(n) ==> exists|i: int|
                0 <= i < self.spec_functions().len() && #[trigger] self.spec_functions()[i].name@
                    == n,
            forall|i: int| 0 <= i < self.spec_variables().len() ==> self.deep().variables
                .contains_key(#[trigger] self.spec_variables()[i].name@) && self.deep().variables[
                self.spec_variables()[i].name@] == self.spec_variables()[i].deep(),
            forall|n: Seq<char>| self.deep().variables.contains_key(n) ==> exists|i: int|
                0 <= i < self.spec_variables().len() && #[trigger] self.spec_variables()[i].name@
                    == n,
            forall|i: int| 0 <= i < self.spec_structs().len() ==> self.deep().structs
                .contains_key(#[trigger] self.spec_structs()[i].name@) && self.deep().structs[
                self.spec_structs()[i].name@] == self.spec_structs()[i].deep(),
            forall|n: Seq<char>| self.deep().structs.contains_key(n) ==> exists|i: int|
                0 <= i < self.spec_structs().len() && #[trigger] self.spec_structs()[i].name@
                    == n,
    {
        let fp = fun_pairs(self.spec_functions());
        let vp = var_pairs(self.spec_variables());
        let sp = struct_pairs(self.spec_structs());
        lemma_table_fold_model(fp);
        lemma_table_fold_model(vp);
        lemma_table_fold_model(sp);
        assert forall|i: int| 0 <= i < self.spec_functions().len() implies self.deep().functions
            .contains_key(#[trigger] self.spec_functions()[i].name@) && self.deep().functions[
        self.spec_functions()[i].name@] == self.spec_functions()[i].deep() by {
            assert(fp[i].0 == self.spec_functions()[i].name@);
            assert(fp[i].1 == self.spec_functions()[i].deep());
        }
        assert forall|n: Seq<char>| self.deep().functions.contains_key(n) implies exists|i: int|
            0 <= i < self.spec_functions().len() && #[trigger] self.spec_functions()[i].name@
                == n by {
            let i = choose|i: int| 0 <= i < fp.len() && (#[trigger] fp[i]).0 == n;
            assert(self.spec_functions()[i].name@ == n);
        }
        assert forall|i: int| 0 <= i < self.spec_variables().len() implies self.deep().variables
            .contains_key(#[trigger] self.spec_variables()[i].name@) && self.deep().variables[
        self.spec_variables()[i].name@] == self.spec_variables()[i].deep() by {
            assert(vp[i].0 == self.spec_variables()[i].name@);
            assert(vp[i].1 == self.spec_variables()[i].deep());
        }
        assert forall|n: Seq<char>| self.deep().variables.contains_key(n) implies exists|i: int|
            0 <= i < self.spec_variables().len() && #[trigger] self.spec_variables()[i].name@
                == n by {
            let i = choose|i: int| 0 <= i < vp.len() && (#[trigger] vp[i]).0 == n;
            assert(self.spec_variables()[i].name@ == n);
        }
        assert forall|i: int| 0 <= i < self.spec_structs().len() implies self.deep().structs
            .contains_key(#[trigger] self.spec_structs()[i].name@) && self.deep().structs[
        self.spec_structs()[i].name@] == self.spec_structs()[i].deep() by {
            assert(sp[i].0 == self.spec_structs()[i].name@);
            assert(sp[i].1 == self.spec_structs()[i].deep());
        }
        assert forall|n: Seq<char>| self.deep().structs.contains_key(n) implies exists|i: int|
            0 <= i < self.spec_structs().len() && #[trigger] self.spec_structs()[i].name@
                == n by {
            let i = choose|i: int| 0 <= i < sp.len() && (#[trigger] sp[i]).0 == n;
            assert(self.spec_structs()[i].name@ == n);
        }
    }

    /// Inserts a function under its name, replacing any previous entry.
    pub fn insert_function(&mut self, function: FunctionDef)
        requires
            old(self).wf(),
        ensures
            final(self).wf(),
            final(self).name@ == old(self).name@,
            final(self).deep().functions == old(self).deep().functions.insert(
                function.name@,
                function.deep(),
            ),
            final(self).deep().variables == old(self).deep().variables,
            final(self).deep().structs == old(self).deep().structs,
    {
        let ghost s0 = self.functions@;
        let mut i: usize = 0;
        loop
            invariant
                self == old(self),
                s0 == self.functions@,
                i <= s0.len(),
                forall|j: int| 0 <= j < i ==> s0[j].name@ != function.name@,
            ensures
                self == old(self),
                i <= s0.len(),
                forall|j: int| 0 <= j < i ==> s0[j].name@ != function.name@,
                i < s0.len() ==> s0[i as int].name@ == function.name@,
                i == s0.len() ==> forall|j: int| 0 <= j < s0.len() ==> s0[j].name@
                    != function.name@,
            decreases s0.len() - i,
        {
            if i >= self.functions.len() {
                break;
            }
            if str_eq(self.functions[i].name.as_str(), function.name.as_str()) {
                break;
            }
            i = i + 1;
        }
        if i < self.functions.len() {
            proof {
                lemma_table_fold_update(
                    fun_pairs(s0),
                    i as int,
                    (function.name@, function.deep()),
                );
            }
            proof {
                assert(fun_pairs(s0)[i as int].0 == function.name@);
                lemma_keys_unique_update(
                    fun_pairs(s0),
                    i as int,
                    (function.name@, function.deep()),
                );
            }
            self.functions.remove(i);
            self.functions.insert(i, function);
            proof {
                assert(self.functions@ =~= s0.update(i as int, function));
                assert(fun_pairs(self.functions@) =~= fun_pairs(s0).update(
                    i as int,
                    (function.name@, function.deep()),
                ));
            }
        } else {
            proof {
                lemma_table_fold_push(fun_pairs(s0), (function.name@, function.deep()));
            }
            proof {
                assert forall|j: int| 0 <= j < fun_pairs(s0).len() implies (#[trigger] fun_pairs(s0)[j]).0
                    != function.name@ by {
                    assert(fun_pairs(s0)[j].0 == s0[j].name@);
                }
                lemma_keys_unique_push(fun_pairs(s0), (function.name@, function.deep()));
            }
            self.functions.push(function);
            proof {
                assert(fun_pairs(self.functions@) =~= fun_pairs(s0).push(
                    (function.name@, function.deep()),
                ));
            }
        }
    }

    /// Inserts a global variable under its name, replacing any previous
    /// entry.
    pub fn insert_variable(&mut self, variable: Variable)
        requires
            old(self).wf(),
        ensures
            final(self).wf(),
            final(self).name@ == old(self).name@,
            final(self).deep().variables == old(self).deep().variables.insert(
                variable.name@,
                variable.deep(),
            ),
            final(self).deep().functions == old(self).deep().functions,
            final(self).deep().structs == old(self).deep().structs,
    {
        let ghost s0 = self.variables@;
        let mut i: usize = 0;
        loop
            invariant
                self == old(self),
                s0 == self.variables@,
                i <= s0.len(),
                forall|j: int| 0 <= j < i ==> s0[j].name@ != variable.name@,
            ensures
                self == old(self),
                i <= s0.len(),
                forall|j: int| 0 <= j < i ==> s0[j].name@ != variable.name@,
                i < s0.len() ==> s0[i as int].name@ == variable.name@,
                i == s0.len() ==> forall|j: int| 0 <= j < s0.len() ==> s0[j].name@
                    != variable.name@,
            decreases s0.len() - i,
        {
            if i >= self.variables.len() {
                break;
            }
            if str_eq(self.variables[i].name.as_str(), variable.name.as_str()) {
                break;
            }
            i = i + 1;
        }
        if i < self.variables.len() {
            proof {
                lemma_table_fold_update(
                    var_pairs(s0),
                    i as int,
                    (variable.name@, variable.deep()),
                );
            }
            proof {
                assert(var_pairs(s0)[i as int].0 == variable.name@);
                lemma_keys_unique_update(
                    var_pairs(s0),
                    i as int,
                    (variable.name@, variable.deep()),
                );
            }
            self.variables.remove(i);
            self.variables.insert(i, variable);
            proof {
                assert(self.variables@ =~= s0.update(i as int, variable));
                assert(var_pairs(self.variables@) =~= var_pairs(s0).update(
                    i as int,
                    (variable.name@, variable.deep()),
                ));
            }
        } else {
            proof {
                lemma_table_fold_push(var_pairs(s0), (variable.name@, variable.deep()));
            }
            proof {
                assert forall|j: int| 0 <= j < var_pairs(s0).len() implies (#[trigger] var_pairs(s0)[j]).0
                    != variable.name@ by {
                    assert(var_pairs(s0)[j].0 == s0[j].name@);
                }
                lemma_keys_unique_push(var_pairs(s0), (variable.name@, variable.deep()));
            }
            self.variables.push(variable);
            proof {
                assert(var_pairs(self.variables@) =~= var_pairs(s0).push(
                    (variable.name@, variable.deep()),
                ));
            }
        }
    }

    /// Inserts a struct under its name, replacing any previous entry.
    pub fn insert_struct(&mut self, struct_: StructDef)
        requires
            old(self).wf(),
        ensures
            final(self).wf(),
            final(self).name@ == old(self).name@,
            final(self).deep().structs == old(self).deep().structs.insert(
                struct_.name@,
                struct_.deep(),
            ),
            final(self).deep().functions == old(self).deep().functions,
            final(self).deep().variables == old(self).deep().variables,
    {
        let ghost s0 = self.structs@;
        let mut i: usize = 0;
        loop
            invariant
                self == old(self),
                s0 == self.structs@,
                i <= s0.len(),
                forall|j: int| 0 <= j < i ==> s0[j].name@ != struct_.name@,
            ensures
                self == old(self),
                i <= s0.len(),
                forall|j: int| 0 <= j < i ==> s0[j].name@ != struct_.name@,
                i < s0.len() ==> s0[i as int].name@ == struct_.name@,
                i == s0.len() ==> forall|j: int| 0 <= j < s0.len() ==> s0[j].name@
                    != struct_.name@,
            decreases s0.len() - i,
        {
            if i >= self.structs.len() {
                break;
            }
            if str_eq(self.structs[i].name.as_str(), struct_.name.as_str()) {
                break;
            }
            i = i + 1;
        }
        if i < self.structs.len() {
            proof {
                lemma_table_fold_update(
                    struct_pairs(s0),
                    i as int,
                    (struct_.name@, struct_.deep()),
                );
            }
            proof {
                assert(struct_pairs(s0)[i as int].0 == struct_.name@);
                lemma_keys_unique_update(
                    struct_pairs(s0),
                    i as int,
                    (struct_.name@, struct_.deep()),
                );
            }
            self.structs.remove(i);
            self.structs.insert(i, struct_);
            proof {
                assert(self.structs@ =~= s0.update(i as int, struct_));
                assert(struct_pairs(self.structs@) =~= struct_pairs(s0).update(
                    i as int,
                    (struct_.name@, struct_.deep()),
                ));
            }
        } else {
            proof {
                lemma_table_fold_push(struct_pairs(s0), (struct_.name@, struct_.deep()));
            }
            proof {
                assert forall|j: int| 0 <= j < struct_pairs(s0).len() implies (#[trigger] struct_pairs(s0)[j]).0
                    != struct_.name@ by {
                    assert(struct_pairs(s0)[j].0 == s0[j].name@);
                }
                lemma_keys_unique_push(struct_pairs(s0), (struct_.name@, struct_.deep()));
            }
            self.structs.push(struct_);
            proof {
                assert(struct_pairs(self.structs@) =~= struct_pairs(s0).push(
                    (struct_.name@, struct_.deep()),
                ));
            }
        }
    }

    /// Finds the function declared under `name`.
    pub fn lookup_function(&self, name: &str) -> (r: Option<&FunctionDef>)
        requires
            self.wf(),
        ensures
            match r {
                Some(f) => self.deep().functions.contains_key(name@) && f.deep() == self.deep()
                    .functions[name@] && f.name@ == name@,
                None => !self.deep().functions.contains_key(name@),
            },
    {
        proof {
            self.lemma_tables();
        }
        let mut i: usize = 0;
        loop
            invariant
                self.wf(),
                i <= self.spec_functions().len(),
                forall|j: int| 0 <= j < i ==> #[trigger] self.spec_functions()[j].name@ != name@,
            ensures
                forall|j: int| 0 <= j < self.spec_functions().len()
                    ==> #[trigger] self.spec_functions()[j].name@ != name@,
            decreases self.spec_functions().len() - i,
        {
            if i >= self.functions.len() {
                break;
            }
            if str_eq(self.functions[i].name.as_str(), name) {
                proof {
                    self.lemma_tables();
                }
                return Some(&self.functions[i]);
            }
            i = i + 1;
        }
        proof {
            self.lemma_tables();
            if self.deep().functions.contains_key(name@) {
                let i = choose|i: int|
                    0 <= i < self.spec_functions().len() && #[trigger] self.spec_functions()[
                    i].name@ == name@;
            }
        }
        None
    }

    /// Finds the global variable declared under `name`.
    pub fn lookup_variable(&self, name: &str) -> (r: Option<&Variable>)
        requires
            self.wf(),
        ensures
            match r {
                Some(v) => self.deep().variables.contains_key(name@) && v.deep() == self.deep()
                    .variables[name@] && v.name@ == name@,
                None => !self.deep().variables.contains_key(name@),
            },
    {
        proof {
            self.lemma_tables();
        }
        let mut i: usize = 0;
        loop
            invariant
                self.wf(),
                i <= self.spec_variables().len(),
                forall|j: int| 0 <= j < i ==> #[trigger] self.spec_variables()[j].name@ != name@,
            ensures
                forall|j: int| 0 <= j < self.spec_variables().len()
                    ==> #[trigger] self.spec_variables()[j].name@ != name@,
            decreases self.spec_variables().len() - i,
        {
            if i >= self.variables.len() {
                break;
            }
            if str_eq(self.variables[i].name.as_str(), name) {
                proof {
                    self.lemma_tables();
                }
                return Some(&self.variables[i]);
            }
            i = i + 1;
        }
        proof {
            self.lemma_tables();
            if self.deep().variables.contains_key(name@) {
                let i = choose|i: int|
                    0 <= i < self.spec_variables().len() && #[trigger] self.spec_variables()[
                    i].name@ == name@;
            }
        }
        None
    }

    /// Finds the struct declared under `name`.
    pub fn lookup_struct(&self, name: &str) -> (r: Option<&StructDef>)
        requires
            self.wf(),
        ensures
            match r {
                Some(sd) => self.deep().structs.contains_key(name@) && sd.deep() == self.deep()
                    .structs[name@] && sd.name@ == name@,
                None => !self.deep().structs.contains_key(name@),
            },
    {
        proof {
            self.lemma_tables();
        }
        let mut i: usize = 0;
        loop
            invariant
                self.wf(),
                i <= self.spec_structs().len(),
                forall|j: int| 0 <= j < i ==> #[trigger] self.spec_structs()[j].name@ != name@,
            ensures
                forall|j: int| 0 <= j < self.spec_structs().len()
                    ==> #[trigger] self.spec_structs()[j].name@ != name@,
            decreases self.spec_structs().len() - i,
        {
            if i >= self.structs.len() {
                break;
            }
            if str_eq(self.structs[i].name.as_str(), name) {
                proof {
                    self.lemma_tables();
                }
                return Some(&self.structs[i]);
            }
            i = i + 1;
        }
        proof {
            self.lemma_tables();
            if self.deep().structs.contains_key(name@) {
                let i = choose|i: int|
                    0 <= i < self.spec_structs().len() && #[trigger] self.spec_structs()[
                    i].name@ == name@;
            }
        }
        None
    }

    /// Parses one top-level declaration at the current position and folds
    /// it into the tables, succeeding exactly when `sp_decl` accepts the
    /// stream here.
    fn parse_top_declaration(&mut self, parser: &mut Parser) -> (r: Result<(), SyntaxError>)
        requires
            old(self).wf(),
            token_at(old(parser).text(), old(parser).pos()) is Some,
        ensures
            final(self).wf(),
            final(parser).text() == old(parser).text(),
            final(parser).pos() >= old(parser).pos(),
            match sp_decl(old(parser).text(), old(parser).pos()) {
                Some(p) => r is Ok && final(self).deep() == apply_decl(old(self).deep(), p.0)
                    && final(parser).pos() == p.1 && old(parser).pos() < p.1
                    <= old(parser).text().len(),
                None => r is Err,
            },
    {
        let ghost src = parser.text();
        let ghost p0 = parser.pos();
        let ghost pre_deep = self.deep();
        let token_start_pos: usize = parser.tokenizer.index;
        let token = match parser.tokenizer.peek() {
            Some(t) => t,
            None => {
                return Err(
                    SyntaxError::new(token_start_pos, token_start_pos, "expected a declaration"),
                );
            },
        };
        proof {
            lemma_token_some(src, p0);
        }
        if token.type_ == TokenType::Keyword {
            let _consumed = parser.tokenizer.next();
            let text = token.value.as_str();
            if str_eq(text, "func") {
                let function = match parser.parse_function() {
                    Ok(f) => f,
                    Err(e) => {
                        proof {
                            assert(sp_decl(src, p0) is None);
                        }
                        return Err(e);
                    },
                };
                let ghost dend = parser.pos();
                proof {
                    assert(sp_decl(src, p0) == Some((DeclV::Function(function.deep()), dend)));
                }
                self.insert_function(function);
                proof {
                    assert(self.deep() == apply_decl(pre_deep, sp_decl(src, p0)->Some_0.0));
                }
            } else if str_eq(text, "var") {
                let variable = match parser.parse_var() {
                    Ok(v) => v,
                    Err(e) => {
                        proof {
                            assert(sp_decl(src, p0) is None);
                        }
                        return Err(e);
                    },
                };
                let ghost dend = parser.pos();
                proof {
                    assert(sp_decl(src, p0) == Some((DeclV::Global(variable.deep()), dend)));
                }
                self.insert_variable(variable);
                proof {
                    assert(self.deep() == apply_decl(pre_deep, sp_decl(src, p0)->Some_0.0));
                }
            } else if str_eq(text, "struct") {
                let struct_ = match parser.parse_struct() {
                    Ok(sd) => sd,
                    Err(e) => {
                        proof {
                            assert(sp_decl(src, p0) is None);
                        }
                        return Err(e);
                    },
                };
                let ghost dend = parser.pos();
                proof {
                    assert(sp_decl(src, p0) == Some((DeclV::Struct(struct_.deep()), dend)));
                }
                self.insert_struct(struct_);
                proof {
                    assert(self.deep() == apply_decl(pre_deep, sp_decl(src, p0)->Some_0.0));
                }
            } else {
                proof {
                    assert(sp_decl(src, p0) is None);
                }
                return Err(
                    SyntaxError::new(
                        token_start_pos,
                        parser.tokenizer.index,
                        "this keyword cannot open a top-level declaration",
                    ),
                );
            }
        } else if token.type_ == TokenType::Identifier {
            let _consumed = parser.tokenizer.next();
            if parser.tokenizer.optionally_expect_punctuation('(') {
                parser.tokenizer.index = token_start_pos;
                let function = match parser.parse_function() {
                    Ok(f) => f,
                    Err(e) => {
                        proof {
                            assert(sp_decl(src, p0) is None);
                        }
                        return Err(e);
                    },
                };
                let ghost dend = parser.pos();
                proof {
                    assert(sp_decl(src, p0) == Some((DeclV::Function(function.deep()), dend)));
                }
                self.insert_function(function);
                proof {
                    assert(self.deep() == apply_decl(pre_deep, sp_decl(src, p0)->Some_0.0));
                }
            } else if parser.tokenizer.optionally_expect_punctuation('{') {
                parser.tokenizer.index = token_start_pos;
                let struct_ = match parser.parse_struct() {
                    Ok(sd) => sd,
                    Err(e) => {
                        proof {
                            assert(sp_decl(src, p0) is None);
                        }
                        return Err(e);
                    },
                };
                let ghost dend = parser.pos();
                proof {
                    assert(sp_decl(src, p0) == Some((DeclV::Struct(struct_.deep()), dend)));
                }
                self.insert_struct(struct_);
                proof {
                    assert(self.deep() == apply_decl(pre_deep, sp_decl(src, p0)->Some_0.0));
                }
            } else {
                proof {
                    assert(sp_decl(src, p0) is None);
                }
                return Err(
                    SyntaxError::new(
                        token_start_pos,
                        parser.tokenizer.index,
                        "expected a declaration at top level",
                    ),
                );
            }
        } else {
            proof {
                assert(sp_decl(src, p0) is None);
            }
            return Err(
                SyntaxError::new(
                    token_start_pos,
                    parser.tokenizer.index,
                    "expected a declaration at top level",
                ),
            );
        }
        Ok(())
    }

    /// Parses a whole source buffer into a compilation unit, succeeding
    /// exactly when `sp_unit` accepts the token stream as a sequence of
    /// top-level declarations, and building exactly the tables those
    /// declarations fold into.
    pub fn parse(source: &str) -> (r: Result<File, SyntaxError>)
        ensures
            match sp_unit(source@, lines_end(source@, 0), empty_unit("main"@)) {
                Some(fv) => r matches Ok(f) && f.wf() && f.deep() == fv,
                None => r is Err,
            },
    {
        let mut parser = Parser::new(source);
        let mut file = File::new("main");
        let ghost src = parser.text();
        let ghost f0 = empty_unit("main"@);
        let ghost start0 = lines_end(src, 0);
        proof {
            lemma_lines_end(src, 0);
            assert(file.deep() == f0);
        }
        parser.tokenizer.eat_lines();
        loop
            invariant_except_break
                match sp_unit(src, parser.pos(), file.deep()) {
                    Some(fv) => sp_unit(src, start0, f0) == Some(fv),
                    None => sp_unit(src, start0, f0) is None,
                },
            invariant
                src == source@,
                file.wf(),
                parser.text() == src,
                parser.pos() <= src.len(),
                start0 == lines_end(src, 0),
                f0 == empty_unit("main"@),
            ensures
                file.wf(),
                sp_unit(src, start0, f0) == Some(file.deep()),
            decreases src.len() - parser.pos(),
        {
            let ghost p0 = parser.pos();
            let ghost pre_deep = file.deep();
            if !parser.tokenizer.in_range() {
                proof {
                    lemma_token_past_end(src, parser.pos());
                    assert(sp_unit(src, p0, file.deep()) == Some(file.deep()));
                }
                break;
            }
            match parser.tokenizer.peek() {
                Some(_) => {},
                None => {
                    proof {
                        assert(sp_unit(src, p0, file.deep()) == Some(file.deep()));
                    }
                    break;
                },
            }
            match file.parse_top_declaration(&mut parser) {
                Ok(_) => {},
                Err(e) => {
                    proof {
                        assert(token_at(src, p0) is Some);
                        assert(sp_decl(src, p0) is None);
                        assert(sp_unit(src, p0, pre_deep) is None);
                        assert(sp_unit(src, start0, f0) is None);
                    }
                    return Err(e);
                },
            }
            let ghost pl = parser.pos();
            proof {
                lemma_lines_end(src, pl);
                assert(sp_unit(src, p0, pre_deep) == sp_unit(src, lines_end(src, pl), file.deep()));
            }
            parser.tokenizer.eat_lines();
        }
        Ok(file)
    }

    /// A global declaration is well-typed when its value's inferred type
    /// equals its declared type; one without a value must carry a type.
    pub open spec fn global_ok(v: VarV, f: FileV) -> bool {
        match v.value {
            Some(e) => infer_type(e, f, None) == Some(v.typ),
            None => v.typ != DataType::Untyped,
        }
    }

    /// Every global declaration of the unit is well-typed.
    pub open spec fn globals_ok(f: FileV) -> bool {
        forall|n: Seq<char>| f.variables.contains_key(n) ==> Self::global_ok(
            #[trigger] f.variables[n],
            f,
        )
    }

    /// Checks every global variable: succeeds exactly when each declared
    /// type matches the value's inferred type, and each value-less
    /// declaration carries a type to stand on.
    pub fn validate_global_variable_types(&self) -> (r: Result<(), TypeError>)
        requires
            self.wf(),
        ensures
            r is Ok <==> Self::globals_ok(self.deep()),
            r is Err ==> exists|i: int|
                0 <= i < self.spec_variables().len() && !Self::global_ok(
                    (#[trigger] self.spec_variables()[i]).deep(),
                    self.deep(),
                ) && (forall|j: int| 0 <= j < i ==> Self::global_ok(self.spec_variables()[j].deep(), self.deep())),
    {
        proof {
            self.lemma_tables();
        }
        let ghost fv = self.deep();
        let mut i: usize = 0;
        loop
            invariant
                self.wf(),
                fv == self.deep(),
                i <= self.spec_variables().len(),
                forall|j: int| 0 <= j < i ==> Self::global_ok(
                    (#[trigger] self.spec_variables()[j]).deep(),
                    fv,
                ),
            ensures
                forall|j: int| 0 <= j < self.spec_variables().len() ==> Self::global_ok(
                    (#[trigger] self.spec_variables()[j]).deep(),
                    fv,
                ),
            decreases self.spec_variables().len() - i,
        {
            if i >= self.variables.len() {
                break;
            }
            let variable = &self.variables[i];
            match &variable.value {
                Some(value) => {
                    let inferred = match HasType::get_type(value, self, None) {
                        Ok(t) => t,
                        Err(e) => {
                            proof {
                                assert(!Self::global_ok(variable.deep(), fv));
                                self.lemma_tables();
                            }
                            return Err(e);
                        },
                    };
                    if inferred != variable.type_ {
                        proof {
                            assert(!Self::global_ok(variable.deep(), fv));
                            self.lemma_tables();
                        }
                        return Err(
                            TypeError::VariableMismatch {
                                name: variable.name.clone(),
                                expected: variable.type_,
                                actual: inferred,
                            },
                        );
                    }
                },
                None => {
                    if variable.type_ == DataType::Untyped {
                        proof {
                            assert(!Self::global_ok(variable.deep(), fv));
                            self.lemma_tables();
                        }
                        return Err(TypeError::CannotInfer { name: variable.name.clone() });
                    }
                },
            }
            i = i + 1;
        }
        proof {
            self.lemma_tables();
            assert forall|n: Seq<char>| fv.variables.contains_key(n) implies Self::global_ok(
                #[trigger] fv.variables[n],
                fv,
            ) by {
                let i = choose|i: int|
                    0 <= i < self.spec_variables().len() && #[trigger] self.spec_variables()[
                    i].name@ == n;
            }
        }
        Ok(())
    }
}

} // verus!
