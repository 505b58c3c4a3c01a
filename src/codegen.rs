use vstd::prelude::*;
use crate::pair::Pair;
use crate::parser::{Parser, Type, AST, FunctionModel, file_is, function_is, statement_is, symbol};

verus! {

pub open spec fn digit_char(d: nat) -> char {
    if d == 0 {
        '0'
    } else if d == 1 {
        '1'
    } else if d == 2 {
        '2'
    } else if d == 3 {
        '3'
    } else if d == 4 {
        '4'
    } else if d == 5 {
        '5'
    } else if d == 6 {
        '6'
    } else if d == 7 {
        '7'
    } else if d == 8 {
        '8'
    } else {
        '9'
    }
}

/// The decimal digits of `n`, without leading zeros.
pub open spec fn decimal(n: nat) -> Seq<char>
    decreases n,
{
    if n < 10 {
        seq![digit_char(n)]
    } else {
        decimal(n / 10) + seq![digit_char(n % 10)]
    }
}

/// A statement the generator can emit: a `return`, with a `Value` if any.
pub open spec fn emittable_statement(a: AST) -> bool {
    match a {
        AST::Return { value: None } => true,
        AST::Return { value: Some(b) } => *b is Value,
        _ => false,
    }
}

/// The text returned by a statement, if any.
pub open spec fn returned_text(a: AST) -> Option<Seq<char>> {
    match a {
        AST::Return { value: Some(b) } => match *b {
            AST::Value { value } => Some(value@),
            _ => None,
        },
        _ => None,
    }
}

pub open spec fn emittable_function(a: AST) -> bool {
    match a {
        AST::FunctionDefinition { body, .. } => forall|k: int|
            0 <= k < body@.len() ==> #[trigger] emittable_statement(body@[k]),
        _ => false,
    }
}

/// A tree the generator can emit: a file of function definitions whose
/// bodies hold `return` statements alone.
pub open spec fn emittable(a: AST) -> bool {
    match a {
        AST::File { child, .. } => forall|i: int|
            0 <= i < child@.len() ==> #[trigger] emittable_function(child@[i]),
        _ => false,
    }
}

/// Entry of a function: its label, the frame set up, one 8-byte slot per
/// parameter.
pub open spec fn prologue(label: Seq<char>, nargs: nat) -> Seq<char> {
    label + ":\n\tpush rbp\n\tmov rbp, rsp\n\tsub rsp, "@ + decimal(8 * nargs) + "\n"@
}

/// The store of parameter `i` into its slot.
pub open spec fn arg_store(i: nat, name: Seq<char>) -> Seq<char> {
    "\tmov [rbp - "@ + decimal(8 * i) + "], "@ + name + "\n"@
}

/// A return: the value, if any, moved into `rax`, then the frame torn down.
pub open spec fn return_code(v: Option<Seq<char>>) -> Seq<char> {
    let value = match v {
        Some(t) => "\tmov rax, "@ + t + "\n"@,
        None => Seq::empty(),
    };
    value + "\tmov rsp, rbp\n\tpop rbp\n\tret\n"@
}

pub open spec fn arg_stores(args: Seq<Pair<String, Type>>) -> Seq<char>
    decreases args.len(),
{
    if args.len() == 0 {
        Seq::empty()
    } else {
        arg_stores(args.drop_last()) + arg_store((args.len() - 1) as nat, args.last().0@)
    }
}

pub open spec fn returns_code(body: Seq<AST>) -> Seq<char>
    decreases body.len(),
{
    if body.len() == 0 {
        Seq::empty()
    } else {
        returns_code(body.drop_last()) + return_code(returned_text(body.last()))
    }
}

pub open spec fn function_code(filename: Seq<char>, f: AST) -> Seq<char> {
    match f {
        AST::FunctionDefinition { name, args, body, .. } => prologue(
            symbol(filename, name@),
            args@.len(),
        ) + arg_stores(args@) + returns_code(body@),
        _ => Seq::empty(),
    }
}

pub open spec fn functions_code(filename: Seq<char>, fs: Seq<AST>) -> Seq<char>
    decreases fs.len(),
{
    if fs.len() == 0 {
        Seq::empty()
    } else {
        functions_code(filename, fs.drop_last()) + function_code(filename, fs.last())
    }
}

/// The pseudo-assembly text of a file.
pub open spec fn file_code(a: AST) -> Seq<char> {
    match a {
        AST::File { child, filename } => functions_code(filename@, child@),
        _ => Seq::empty(),
    }
}

/// A file as `parse` builds it is one the generator can emit.
pub proof fn lemma_parsed_file_emittable(a: AST, filename: Seq<char>, ms: Seq<FunctionModel>)
    requires
        file_is(a, filename, ms),
    ensures
        emittable(a),
{
    if let AST::File { child, .. } = a {
        assert forall|i: int| 0 <= i < child@.len() implies #[trigger] emittable_function(child@[i]) by {
            assert(function_is(child@[i], ms[i]));
            if let AST::FunctionDefinition { body, .. } = child@[i] {
                assert forall|k: int| 0 <= k < body@.len() implies #[trigger] emittable_statement(body@[k]) by {
                    assert(statement_is(body@[k], ms[i].body[k]));
                }
            }
        }
    }
}

fn digit_text(d: u128) -> (r: &'static str)
    requires
        d < 10,
    ensures
        r@ == seq![digit_char(d as nat)],
{
    proof {
        reveal_strlit("0");
        reveal_strlit("1");
        reveal_strlit("2");
        reveal_strlit("3");
        reveal_strlit("4");
        reveal_strlit("5");
        reveal_strlit("6");
        reveal_strlit("7");
        reveal_strlit("8");
        reveal_strlit("9");
    }
    let r = match d {
        0 => "0",
        1 => "1",
        2 => "2",
        3 => "3",
        4 => "4",
        5 => "5",
        6 => "6",
        7 => "7",
        8 => "8",
        _ => "9",
    };
    assert(r@ =~= seq![digit_char(d as nat)]);
    r
}

fn append_decimal(r: &mut String, n: u128)
    ensures
        final(r)@ == old(r)@ + decimal(n as nat),
    decreases n,
{
    if n >= 10 {
        append_decimal(r, n / 10);
    }
    r.append(digit_text(n % 10));
    assert(final(r)@ =~= old(r)@ + decimal(n as nat));
}

impl Parser {
    /// The pseudo-assembly text of a parsed file: for each function its
    /// label, a frame with one 8-byte slot per parameter, and the code of each
    /// `return`.
    pub fn pseudo_asm(ast: &AST) -> (r: String)
        requires
            emittable(*ast),
        ensures
            r@ == file_code(*ast),
    {
        let mut r = String::new();
        match ast {
            AST::File { child, filename } => {
                let mut i: usize = 0;
                while i < child.len()
                    invariant
                        forall|j: int| 0 <= j < child@.len() ==> #[trigger] emittable_function(child@[j]),
                        i <= child@.len(),
                        r@ == functions_code(filename@, child@.subrange(0, i as int)),
                    decreases child@.len() - i,
                {
                    assert(emittable_function(child@[i as int]));
                    let ghost before = r@;
                    Self::append_function(&mut r, filename, &child[i]);
                    proof {
                        let fs = child@.subrange(0, i + 1);
                        assert(fs.drop_last() =~= child@.subrange(0, i as int));
                        assert(r@ =~= functions_code(filename@, fs));
                    }
                    i = i + 1;
                }
                proof {
                    assert(child@.subrange(0, i as int) =~= child@);
                }
            },
            _ => {},
        }
        r
    }

    fn append_function(r: &mut String, filename: &String, f: &AST)
        requires
            emittable_function(*f),
        ensures
            final(r)@ == old(r)@ + function_code(filename@, *f),
    {
        match f {
            AST::FunctionDefinition { name, args, body, .. } => {
                let label = Self::name_with_file(filename.clone(), name.clone());
                let ghost start = r@;
                r.append(label.as_str());
                r.append(":\n\tpush rbp\n\tmov rbp, rsp\n\tsub rsp, ");
                append_decimal(r, 8 * (args.len() as u128));
                r.append("\n");
                assert(r@ =~= start + prologue(symbol(filename@, name@), args@.len()));
                let ghost head = r@;
                let mut j: usize = 0;
                while j < args.len()
                    invariant
                        j <= args@.len(),
                        r@ == head + arg_stores(args@.subrange(0, j as int)),
                    decreases args@.len() - j,
                {
                    r.append("\tmov [rbp - ");
                    append_decimal(r, 8 * (j as u128));
                    r.append("], ");
                    r.append(args[j].0.as_str());
                    r.append("\n");
                    proof {
                        let s = args@.subrange(0, j + 1);
                        assert(s.drop_last() =~= args@.subrange(0, j as int));
                        assert(r@ =~= head + arg_stores(s));
                    }
                    j = j + 1;
                }
                assert(args@.subrange(0, j as int) =~= args@);
                let ghost mid = r@;
                let mut k: usize = 0;
                while k < body.len()
                    invariant
                        forall|j: int| 0 <= j < body@.len() ==> #[trigger] emittable_statement(body@[j]),
                        k <= body@.len(),
                        r@ == mid + returns_code(body@.subrange(0, k as int)),
                    decreases body@.len() - k,
                {
                    assert(emittable_statement(body@[k as int]));
                    let ghost before = r@;
                    match &body[k] {
                        AST::Return { value: Some(b) } => match &**b {
                            AST::Value { value } => {
                                r.append("\tmov rax, ");
                                r.append(value.as_str());
                                r.append("\n");
                            },
                            _ => {},
                        },
                        _ => {},
                    }
                    r.append("\tmov rsp, rbp\n\tpop rbp\n\tret\n");
                    proof {
                        let s = body@.subrange(0, k + 1);
                        assert(s.drop_last() =~= body@.subrange(0, k as int));
                        assert(r@ =~= before + return_code(returned_text(body@[k as int])));
                        assert(r@ =~= mid + returns_code(s));
                    }
                    k = k + 1;
                }
                assert(body@.subrange(0, k as int) =~= body@);
                assert(r@ =~= start + function_code(filename@, *f));
            },
            _ => {},
        }
    }
}

} // verus!
