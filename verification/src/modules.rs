use vstd::prelude::*;
use vstd::string::StrSliceExecFns;
use crate::ast::{Program, Spanned, Stmt, nodes};
use crate::error::{ErrorView, HuziError};
use crate::suggest::names_of;
use crate::text::{is_text, push_char};

verus! {

/// The name a module is bound to: the last segment of its dotted import
/// name (`mods.helpers` binds `helpers`); a name without dots is its own.
pub open spec fn bind_name(import_name: Seq<char>) -> Seq<char> {
    if exists|i: int| 0 <= i < import_name.len() && import_name[i] == '.' {
        let last = choose|i: int|
            0 <= i < import_name.len() && import_name[i] == '.' && forall|k: int|
                i < k < import_name.len() ==> import_name[k] != '.';
        import_name.subrange(last + 1, import_name.len() as int)
    } else {
        import_name
    }
}

/// The name a module imported as `import_name` is bound to.
pub fn module_bind_name(import_name: &str) -> (s: String)
    ensures
        s@ == bind_name(import_name@),
{
    let n = import_name.unicode_len();
    let mut i: usize = n;
    while i > 0 && import_name.get_char(i - 1) != '.'
        invariant
            n == import_name@.len(),
            i <= n,
            forall|k: int| i <= k < n ==> import_name@[k] != '.',
        decreases i,
    {
        i -= 1;
    }
    let ghost dot = i as int - 1;
    let mut s = String::new();
    let mut j: usize = i;
    while j < n
        invariant
            n == import_name@.len(),
            i <= j <= n,
            s@ == import_name@.subrange(i as int, j as int),
        decreases n - j,
    {
        push_char(&mut s, import_name.get_char(j));
        j += 1;
        proof {
            assert(s@ =~= import_name@.subrange(i as int, j as int));
        }
    }
    proof {
        if i > 0 {
            assert(import_name@[dot] == '.');
            let last = choose|l: int|
                0 <= l < import_name@.len() && import_name@[l] == '.' && forall|k: int|
                    l < k < import_name@.len() ==> import_name@[k] != '.';
            if last < dot {
                assert(import_name@[dot] != '.');
            } else if last > dot {
                assert(import_name@[last] != '.');
            }
        } else {
            assert(import_name@.subrange(0, n as int) =~= import_name@);
        }
    }
    s
}

// ---------------------------------------------------------------------------
// Loading imported modules: the imports of a program, the files they name,
// what a module may contain, and what each import does given what is loaded.
// ---------------------------------------------------------------------------

/// The statements of `s` that are not imports, in order.
pub open spec fn without_imports(s: Seq<Spanned>) -> Seq<Spanned>
    decreases s.len(),
{
    if s.len() == 0 {
        Seq::empty()
    } else {
        let rest = without_imports(s.drop_last());
        if s.last().node is Import {
            rest
        } else {
            rest.push(s.last())
        }
    }
}

/// The names of the imports among `s`, in order.
pub open spec fn import_names(s: Seq<Spanned>) -> Seq<Seq<char>>
    decreases s.len(),
{
    if s.len() == 0 {
        Seq::empty()
    } else {
        let rest = import_names(s.drop_last());
        match s.last().node {
            Stmt::Import(i) => rest.push(i.name@),
            _ => rest,
        }
    }
}

/// Takes the imports out of a program: the other statements stay, in order,
/// and the names of the imports are returned, in order.
pub fn extract_imports(program: &mut Program) -> (names: Vec<String>)
    ensures
        final(program).statements@ == without_imports(old(program).statements@),
        names_of(names@) == import_names(old(program).statements@),
{
    let ghost orig = program.statements@;
    let mut rest: Vec<Spanned> = Vec::new();
    std::mem::swap(&mut rest, &mut program.statements);
    let mut kept: Vec<Spanned> = Vec::new();
    let mut names: Vec<String> = Vec::new();
    let ghost mut taken: int = 0;
    proof {
        assert(orig.take(0) =~= Seq::<Spanned>::empty());
        assert(rest@ =~= orig.skip(0));
        assert(names_of(names@) =~= Seq::<Seq<char>>::empty());
    }
    while rest.len() > 0
        invariant
            0 <= taken <= orig.len(),
            rest@ == orig.skip(taken),
            kept@ == without_imports(orig.take(taken)),
            names_of(names@) == import_names(orig.take(taken)),
        decreases rest@.len(),
    {
        let item = rest.remove(0);
        proof {
            assert(item == orig[taken]);
            assert(orig.take(taken + 1).drop_last() =~= orig.take(taken));
            assert(orig.take(taken + 1).last() == item);
            assert(rest@ =~= orig.skip(taken + 1));
        }
        match &item.node {
            Stmt::Import(i) => {
                let ghost before = names@;
                names.push(i.name.clone());
                proof {
                    assert(names_of(names@) =~= names_of(before).push(i.name@));
                }
            },
            _ => {},
        }
        let is_import = match &item.node {
            Stmt::Import(_) => true,
            _ => false,
        };
        if !is_import {
            kept.push(item);
        }
        proof {
            taken = taken + 1;
        }
    }
    proof {
        assert(orig.take(taken) =~= orig);
    }
    program.statements = kept;
    names
}

/// A module's statement is a definition (fn, struct, enum) or an import.
pub open spec fn allowed_in_module(s: Stmt) -> bool {
    s is Fn || s is Struct || s is Enum || s is Import
}

/// The error for a module that holds anything else.
pub open spec fn module_content_error(name: Seq<char>) -> ErrorView {
    ErrorView {
        message: "Module '"@ + name + "' may only contain fn/struct/enum definitions and imports"@,
        line: 0,
        column: 0,
    }
}

/// Checks that the module `name` holds only definitions and imports.
pub fn module_program_error(name: &str, program: &Program) -> (r: Result<(), HuziError>)
    ensures
        match r {
            Ok(()) => forall|i: int| 0 <= i < program.statements@.len() ==> allowed_in_module(
                #[trigger] nodes(program.statements@)[i],
            ),
            Err(e) => (exists|i: int| 0 <= i < program.statements@.len() && !allowed_in_module(
                #[trigger] nodes(program.statements@)[i],
            )) && e@ == module_content_error(name@),
        },
{
    let mut i: usize = 0;
    while i < program.statements.len()
        invariant
            i <= program.statements@.len(),
            forall|k: int| 0 <= k < i ==> allowed_in_module(#[trigger] nodes(program.statements@)[k]),
        decreases program.statements@.len() - i,
    {
        let ok = match &program.statements[i].node {
            Stmt::Fn(_) | Stmt::Struct(_) | Stmt::Enum(_) | Stmt::Import(_) => true,
            _ => false,
        };
        proof {
            assert(nodes(program.statements@)[i as int] == program.statements@[i as int].node);
        }
        if !ok {
            let mut message = "Module '".to_owned();
            message.append(name);
            message.append("' may only contain fn/struct/enum definitions and imports");
            return Err(HuziError::new_global(message.as_str()));
        }
        i += 1;
    }
    Ok(())
}

/// A string split at each `.`: `a.b` gives `a` and `b`, `a.` gives `a`
/// and an empty segment, the empty string one empty segment.
pub open spec fn split_dots(s: Seq<char>) -> Seq<Seq<char>>
    decreases s.len(),
{
    if s.len() == 0 {
        seq![Seq::<char>::empty()]
    } else {
        let rest = split_dots(s.drop_last());
        if s.last() == '.' {
            rest.push(Seq::empty())
        } else {
            rest.update(rest.len() - 1, rest.last().push(s.last()))
        }
    }
}

proof fn lemma_split_dots_nonempty(s: Seq<char>)
    ensures
        split_dots(s).len() >= 1,
    decreases s.len(),
{
    if s.len() > 0 {
        lemma_split_dots_nonempty(s.drop_last());
    }
}

/// The path segments of the file an import names: its name split at each
/// dot (`mods.helpers` is `mods/helpers.hz`).
pub fn module_file_segments(import_name: &str) -> (segs: Vec<String>)
    ensures
        names_of(segs@) == split_dots(import_name@),
{
    let n = import_name.unicode_len();
    let mut segs: Vec<String> = Vec::new();
    let mut cur = String::new();
    let mut i: usize = 0;
    proof {
        assert(import_name@.take(0) =~= Seq::<char>::empty());
        assert(names_of(segs@).push(cur@) =~= split_dots(Seq::<char>::empty()));
    }
    while i < n
        invariant
            n == import_name@.len(),
            i <= n,
            names_of(segs@).push(cur@) == split_dots(import_name@.take(i as int)),
        decreases n - i,
    {
        let c = import_name.get_char(i);
        let ghost before = names_of(segs@).push(cur@);
        proof {
            assert(import_name@.take(i + 1).drop_last() =~= import_name@.take(i as int));
            assert(import_name@.take(i + 1).last() == c);
            lemma_split_dots_nonempty(import_name@.take(i as int));
        }
        if c == '.' {
            let mut done = String::new();
            std::mem::swap(&mut done, &mut cur);
            let ghost segs_before = segs@;
            segs.push(done);
            proof {
                assert(names_of(segs@) =~= names_of(segs_before).push(done@));
                assert(cur@ =~= Seq::<char>::empty());
                assert(names_of(segs@).push(cur@) =~= before.push(Seq::empty()));
            }
        } else {
            let ghost cur_before = cur@;
            push_char(&mut cur, c);
            proof {
                assert(names_of(segs@).push(cur@) =~= before.update(before.len() - 1, before.last().push(c)));
            }
        }
        i += 1;
    }
    proof {
        assert(import_name@.take(n as int) =~= import_name@);
    }
    let ghost segs_before = segs@;
    segs.push(cur);
    proof {
        assert(names_of(segs@) =~= names_of(segs_before).push(cur@));
    }
    segs
}

/// The modules built into the compiler, which no file defines.
pub open spec fn is_builtin_module(name: Seq<char>) -> bool {
    name == "math"@
}

/// What loading an import does first, given the names of the modules
/// loaded so far.
#[derive(Debug, Clone, Copy, PartialEq, Eq, Structural)]
pub enum ImportStep {
    /// A module of that name is loaded already: nothing more to do.
    AlreadyLoaded,
    /// A built-in module: registered by name, with no file.
    Builtin,
    /// A file module: find its file, then see `resolved_step`.
    FindFile,
}

/// The first step for an import bound to `name` (see `bind_name`).
pub fn import_step(loaded: &Vec<String>, name: &str) -> (r: ImportStep)
    ensures
        r == if names_of(loaded@).contains(name@) {
            ImportStep::AlreadyLoaded
        } else if is_builtin_module(name@) {
            ImportStep::Builtin
        } else {
            ImportStep::FindFile
        },
{
    let mut i: usize = 0;
    while i < loaded.len()
        invariant
            i <= loaded@.len(),
            forall|k: int| 0 <= k < i ==> names_of(loaded@)[k] != name@,
        decreases loaded@.len() - i,
    {
        if is_text(&loaded[i], name) {
            proof {
                assert(names_of(loaded@)[i as int] == name@);
            }
            return ImportStep::AlreadyLoaded;
        }
        i += 1;
    }
    proof {
        assert(!names_of(loaded@).contains(name@));
    }
    if is_text(&name.to_owned(), "math") {
        ImportStep::Builtin
    } else {
        ImportStep::FindFile
    }
}

/// The file a name was first resolved to, among `(name, file)` pairs.
pub open spec fn resolved_file(pairs: Seq<(Seq<char>, Seq<char>)>, name: Seq<char>) -> Option<Seq<char>>
    decreases pairs.len(),
{
    if pairs.len() == 0 {
        None
    } else if pairs[0].0 == name {
        Some(pairs[0].1)
    } else {
        resolved_file(pairs.drop_first(), name)
    }
}

/// The `(name, file)` pairs of a list, as values.
pub open spec fn pairs_of(v: Seq<(String, String)>) -> Seq<(Seq<char>, Seq<char>)> {
    v.map_values(|p: (String, String)| (p.0@, p.1@))
}

/// The error for a module name that two imports resolve to two files.
pub open spec fn conflicting_files_error(name: Seq<char>, first: Seq<char>, second: Seq<char>) -> ErrorView {
    ErrorView {
        message: "Module '"@ + name + "' resolves to different files: "@ + first + " and "@ + second,
        line: 0,
        column: 0,
    }
}

/// What a file module `name`, found at `file`, does given the files that
/// names were resolved to so far: `Ok(true)` when it is new and must be
/// read and loaded, `Ok(false)` when the same file was resolved before
/// (a repeated or circular import, which stops there), and an error when
/// the name was resolved to another file.
pub fn resolved_step(resolved: &Vec<(String, String)>, name: &str, file: &str) -> (r: Result<bool, HuziError>)
    ensures
        match resolved_file(pairs_of(resolved@), name@) {
            None => r == Ok::<bool, HuziError>(true),
            Some(prev) => if prev == file@ {
                r == Ok::<bool, HuziError>(false)
            } else {
                r matches Err(e) && e@ == conflicting_files_error(name@, prev, file@)
            },
        },
{
    let ghost pairs = pairs_of(resolved@);
    let mut i: usize = 0;
    proof {
        assert(pairs.skip(0) =~= pairs);
    }
    while i < resolved.len()
        invariant
            i <= resolved@.len(),
            pairs == pairs_of(resolved@),
            resolved_file(pairs, name@) == resolved_file(pairs.skip(i as int), name@),
        decreases resolved@.len() - i,
    {
        proof {
            assert(pairs.skip(i as int)[0] == pairs[i as int]);
            assert(pairs.skip(i as int).drop_first() =~= pairs.skip(i + 1));
        }
        if is_text(&resolved[i].0, name) {
            if is_text(&resolved[i].1, file) {
                return Ok(false);
            }
            let mut message = "Module '".to_owned();
            message.append(name);
            message.append("' resolves to different files: ");
            message.append(resolved[i].1.as_str());
            message.append(" and ");
            message.append(file);
            return Err(HuziError::new_global(message.as_str()));
        }
        i += 1;
    }
    proof {
        assert(pairs.skip(i as int).len() == 0);
    }
    Ok(true)
}

} // verus!
