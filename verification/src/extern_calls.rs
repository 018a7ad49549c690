//! The Windows API functions a program calls, and the DLL each comes from, so that the
//! native back end can lay out its import table before generating code.
use vstd::prelude::*;
use crate::ast::{Expr, Stmt};

verus! {

/// The DLLs known functions come from: window and message functions from `user32.dll`,
/// process, console, file, memory and library functions from `kernel32.dll`.
pub open spec fn dll_of(name: Seq<char>) -> Option<Seq<char>> {
    if name == "MessageBoxA"@ || name == "CreateWindowExA"@ || name == "ShowWindow"@ || name
        == "GetMessageA"@ || name == "DispatchMessageA"@ || name == "DefWindowProcA"@ || name
        == "RegisterClassA"@ || name == "PostQuitMessage"@ || name == "UpdateWindow"@ || name
        == "GetDC"@ || name == "ReleaseDC"@ || name == "BeginPaint"@ || name == "EndPaint"@ || name
        == "LoadCursorA"@ || name == "LoadIconA"@ {
        Some("user32.dll"@)
    } else if name == "Beep"@ || name == "Sleep"@ || name == "GetTickCount"@ || name
        == "GetLastError"@ || name == "SetLastError"@ || name == "GetCommandLineA"@ || name
        == "GetModuleHandleA"@ || name == "CreateFileA"@ || name == "WriteFile"@ || name
        == "ReadFile"@ || name == "CloseHandle"@ || name == "GetStdHandle"@ || name
        == "WriteConsoleA"@ || name == "ExitProcess"@ || name == "GetProcessHeap"@ || name
        == "HeapAlloc"@ || name == "HeapFree"@ || name == "VirtualAlloc"@ || name == "VirtualFree"@
        || name == "LoadLibraryA"@ || name == "GetProcAddress"@ || name == "FreeLibrary"@ {
        Some("kernel32.dll"@)
    } else {
        None
    }
}

/// Whether `name` is `lit`.
fn is(name: &String, lit: &str) -> (b: bool)
    ensures
        b == (name@ == lit@),
{
    *name == String::from_str(lit)
}

/// The DLL a known Windows API function comes from.
pub fn known_dll(fn_name: &String) -> (r: Option<&'static str>)
    ensures
        match r {
            Some(d) => dll_of(fn_name@) == Some(d@),
            None => dll_of(fn_name@) is None,
        },
{
    if is(fn_name, "MessageBoxA") || is(fn_name, "CreateWindowExA") || is(fn_name, "ShowWindow")
        || is(fn_name, "GetMessageA") || is(fn_name, "DispatchMessageA") || is(
        fn_name,
        "DefWindowProcA",
    ) || is(fn_name, "RegisterClassA") || is(fn_name, "PostQuitMessage") || is(
        fn_name,
        "UpdateWindow",
    ) || is(fn_name, "GetDC") || is(fn_name, "ReleaseDC") || is(fn_name, "BeginPaint") || is(
        fn_name,
        "EndPaint",
    ) || is(fn_name, "LoadCursorA") || is(fn_name, "LoadIconA") {
        Some("user32.dll")
    } else if is(fn_name, "Beep") || is(fn_name, "Sleep") || is(fn_name, "GetTickCount") || is(
        fn_name,
        "GetLastError",
    ) || is(fn_name, "SetLastError") || is(fn_name, "GetCommandLineA") || is(
        fn_name,
        "GetModuleHandleA",
    ) || is(fn_name, "CreateFileA") || is(fn_name, "WriteFile") || is(fn_name, "ReadFile") || is(
        fn_name,
        "CloseHandle",
    ) || is(fn_name, "GetStdHandle") || is(fn_name, "WriteConsoleA") || is(fn_name, "ExitProcess")
        || is(fn_name, "GetProcessHeap") || is(fn_name, "HeapAlloc") || is(fn_name, "HeapFree")
        || is(fn_name, "VirtualAlloc") || is(fn_name, "VirtualFree") || is(fn_name, "LoadLibraryA")
        || is(fn_name, "GetProcAddress") || is(fn_name, "FreeLibrary") {
        Some("kernel32.dll")
    } else {
        None
    }
}

/// A list of (DLL, function) pairs by their texts.
pub open spec fn pairs_view(v: Seq<(&'static str, String)>) -> Seq<(Seq<char>, Seq<char>)> {
    v.map_values(|p: (&'static str, String)| (p.0@, p.1@))
}

/// `acc` extended by the known functions an expression calls, in order, through calls
/// and operators: a function is added unless `acc` already holds it.
pub open spec fn expr_imports(e: Expr, acc: Seq<(Seq<char>, Seq<char>)>) -> Seq<(Seq<char>, Seq<char>)>
    decreases e,
{
    match e {
        Expr::Call(name, args) => {
            let a = match dll_of(name@) {
                Some(d) => if acc.contains((d, name@)) {
                    acc
                } else {
                    acc.push((d, name@))
                },
                None => acc,
            };
            args_imports(args@, a)
        },
        Expr::Binary(l, _, r) => expr_imports(*r, expr_imports(*l, acc)),
        _ => acc,
    }
}

/// `acc` extended by the known functions the arguments call, left to right.
pub open spec fn args_imports(v: Seq<Expr>, acc: Seq<(Seq<char>, Seq<char>)>) -> Seq<(Seq<char>, Seq<char>)>
    decreases v,
{
    if v.len() == 0 {
        acc
    } else {
        expr_imports(v[v.len() - 1], args_imports(v.subrange(0, v.len() - 1), acc))
    }
}

/// `acc` extended by what a statement calls: expression statements and bindings are
/// walked into `acc` (no function twice there); the condition of an `if` too, then
/// the lists of its branches, loops and blocks, each gathered on its own, are appended.
pub open spec fn stmt_imports(s: Stmt, acc: Seq<(Seq<char>, Seq<char>)>) -> Seq<(Seq<char>, Seq<char>)>
    decreases s,
{
    match s {
        Stmt::Expr(e) => expr_imports(e, acc),
        Stmt::Let { value, .. } => expr_imports(value, acc),
        Stmt::If { cond, then_block, else_block } => {
            let a = expr_imports(cond, acc) + block_imports(then_block@, Seq::empty());
            match else_block {
                Some(b) => a + block_imports(b@, Seq::empty()),
                None => a,
            }
        },
        Stmt::While(_, body) => acc + block_imports(body@, Seq::empty()),
        Stmt::For { body, .. } => acc + block_imports(body@, Seq::empty()),
        Stmt::Block(v) => acc + block_imports(v@, Seq::empty()),
        _ => acc,
    }
}

/// `acc` extended by what the statements of a block call, in order.
pub open spec fn block_imports(v: Seq<Stmt>, acc: Seq<(Seq<char>, Seq<char>)>) -> Seq<(Seq<char>, Seq<char>)>
    decreases v,
{
    if v.len() == 0 {
        acc
    } else {
        stmt_imports(v[v.len() - 1], block_imports(v.subrange(0, v.len() - 1), acc))
    }
}

/// Whether `out` holds the pair.
fn holds(out: &Vec<(&'static str, String)>, d: &'static str, name: &String) -> (b: bool)
    ensures
        b == pairs_view(out@).contains((d@, name@)),
{
    let mut i: usize = 0;
    while i < out.len()
        invariant
            i <= out@.len(),
            forall|j: int| 0 <= j < i ==> pairs_view(out@)[j] != (d@, name@),
        decreases out@.len() - i,
    {
        if String::from_str(out[i].0) == String::from_str(d) && out[i].1 == *name {
            assert(pairs_view(out@)[i as int] == (d@, name@));
            return true;
        }
        i = i + 1;
    }
    assert(!pairs_view(out@).contains((d@, name@)));
    false
}

/// Adds the known functions an expression calls to `out`.
fn walk(e: &Expr, out: &mut Vec<(&'static str, String)>)
    ensures
        pairs_view(final(out)@) == expr_imports(*e, pairs_view(old(out)@)),
    decreases e,
{
    match e {
        Expr::Call(name, args) => {
            if let Some(d) = known_dll(name) {
                if !holds(out, d, name) {
                    let ghost o = out@;
                    out.push((d, name.clone()));
                    assert(pairs_view(out@) =~= pairs_view(o).push((d@, name@)));
                }
            }
            let mut i: usize = 0;
            let ghost a0 = pairs_view(out@);
            assert(args@.subrange(0, 0) =~= Seq::<Expr>::empty());
            while i < args.len()
                invariant
                    i <= args@.len(),
                    e is Call ==> *args == e->Call_1,
                    e is Call,
                    pairs_view(out@) == args_imports(args@.subrange(0, i as int), a0),
                decreases args@.len() - i,
            {
                assert(decreases_to!(*args => args[i as int]));
                assert(decreases_to!(*e => *args));
                assert(args@.subrange(0, i as int + 1).subrange(0, i as int) =~= args@.subrange(
                    0,
                    i as int,
                ));
                walk(&args[i], out);
                i = i + 1;
            }
            assert(args@.subrange(0, args@.len() as int) =~= args@);
        },
        Expr::Binary(l, _, r) => {
            walk(l, out);
            walk(r, out);
        },
        _ => {},
    }
}

/// The (DLL, function) pairs of the known Windows API functions statements call, in the
/// order met: within one list a function appears once; lists gathered from nested
/// blocks are appended as they are.
pub fn scan_extern_imports(stmts: &Vec<Stmt>) -> (imports: Vec<(&'static str, String)>)
    ensures
        pairs_view(imports@) == block_imports(stmts@, Seq::empty()),
    decreases stmts,
{
    let mut imports: Vec<(&'static str, String)> = Vec::new();
    let mut i: usize = 0;
    assert(pairs_view(imports@) =~= Seq::<(Seq<char>, Seq<char>)>::empty());
    assert(stmts@.subrange(0, 0) =~= Seq::<Stmt>::empty());
    while i < stmts.len()
        invariant
            i <= stmts@.len(),
            pairs_view(imports@) == block_imports(stmts@.subrange(0, i as int), Seq::empty()),
        decreases stmts@.len() - i,
    {
        assert(stmts@.subrange(0, i as int + 1).subrange(0, i as int) =~= stmts@.subrange(0, i as int));
        assert(decreases_to!(*stmts => stmts[i as int]));
        let ghost before = pairs_view(imports@);
        assert(block_imports(stmts@.subrange(0, i as int + 1), Seq::empty()) == stmt_imports(
            stmts@[i as int],
            before,
        ));
        match &stmts[i] {
            Stmt::Expr(e) => walk(e, &mut imports),
            Stmt::Let { value, .. } => walk(value, &mut imports),
            Stmt::If { cond, then_block, else_block } => {
                walk(cond, &mut imports);
                let ghost a1 = pairs_view(imports@);
                let mut t = scan_extern_imports(then_block);
                imports.append(&mut t);
                assert(pairs_view(imports@) =~= a1 + block_imports(then_block@, Seq::empty()));
                if let Some(b) = else_block {
                    let ghost a2 = pairs_view(imports@);
                    let mut x = scan_extern_imports(b);
                    imports.append(&mut x);
                    assert(pairs_view(imports@) =~= a2 + block_imports(b@, Seq::empty()));
                }
            },
            Stmt::While(_, body) | Stmt::For { body, .. } => {
                let mut t = scan_extern_imports(body);
                imports.append(&mut t);
                assert(pairs_view(imports@) =~= before + block_imports(body@, Seq::empty()));
            },
            Stmt::Block(v) => {
                let mut t = scan_extern_imports(v);
                imports.append(&mut t);
                assert(pairs_view(imports@) =~= before + block_imports(v@, Seq::empty()));
            },
            _ => {},
        }
        i = i + 1;
    }
    assert(stmts@.subrange(0, stmts@.len() as int) =~= stmts@);
    imports
}

} // verus!
