//! "Cooking": flattening structured indices into single symbols.
//!
//! A function call whose arguments are symbols, non-negative integers or
//! further such calls is cooked into one variable whose name joins the
//! function's name and its cooked arguments with `_`: `f(a, g(b), 2)` becomes
//! the variable `f_a_g_b_2`. Sums, products, powers and negative numbers
//! cannot be cooked.
use vstd::prelude::*;
use crate::expr::{Expr, Term, copy_string, lemma_terms_of, lemma_terms_of_push, terms_of, views};
use crate::representations::{RepTable, table_lookup};

verus! {

/// Why an expression could not be cooked.
#[derive(Clone, Copy, Debug, PartialEq, Eq, Structural)]
pub enum CookingError {
    /// The expression is not a function call.
    NotAFunction,
    /// An argument is a sum, product, power or negative number.
    NotCookable,
}

/// The decimal digit character of `d < 10`.
pub open spec fn digit_char(d: nat) -> char {
    if d == 0 {
        '0'
    } else if d == 1 {
        '1'
    } else if d == 2 {
        '2'
    } else if d == 3 {
        '3'
    } else if d == 4 {
        '4'
    } else if d == 5 {
        '5'
    } else if d == 6 {
        '6'
    } else if d == 7 {
        '7'
    } else if d == 8 {
        '8'
    } else {
        '9'
    }
}

/// The decimal representation of a natural number.
pub open spec fn decimal(n: nat) -> Seq<char>
    decreases n,
{
    if n < 10 {
        seq![digit_char(n)]
    } else {
        decimal(n / 10).push(digit_char(n % 10))
    }
}

/// The cooked name of a term, if it can be cooked.
pub open spec fn cooked_name(t: Term) -> Option<Seq<char>>
    decreases t,
{
    match t {
        Term::Var(s) => Some(s),
        Term::Num(n) => if n >= 0 {
            Some(decimal(n as nat))
        } else {
            None
        },
        Term::Fun(f, args) => cooked_call(f, args),
        _ => None,
    }
}

/// The cooked name of the call `f(args...)`: `f` followed by `_` and the
/// cooked name of each argument.
pub open spec fn cooked_call(f: Seq<char>, args: Seq<Term>) -> Option<Seq<char>>
    decreases args,
{
    if args.len() == 0 {
        Some(f)
    } else {
        match (cooked_call(f, args.drop_last()), cooked_name(args.last())) {
            (Some(p), Some(q)) => Some(p + seq!['_'] + q),
            _ => None,
        }
    }
}

/// What cooking a term gives: a variable named by the cooked call, an error
/// when the term is not a call or holds something that cannot be cooked.
pub open spec fn cook_function_spec(t: Term) -> Result<Term, CookingError> {
    match t {
        Term::Fun(f, args) => match cooked_call(f, args) {
            Some(name) => Ok(Term::Var(name)),
            None => Err(CookingError::NotCookable),
        },
        _ => Err(CookingError::NotAFunction),
    }
}

fn digit_str(d: u64) -> (r: &'static str)
    requires
        d < 10,
    ensures
        r@ == seq![digit_char(d as nat)],
{
    if d == 0 {
        proof { reveal_strlit("0"); }
        "0"
    } else if d == 1 {
        proof { reveal_strlit("1"); }
        "1"
    } else if d == 2 {
        proof { reveal_strlit("2"); }
        "2"
    } else if d == 3 {
        proof { reveal_strlit("3"); }
        "3"
    } else if d == 4 {
        proof { reveal_strlit("4"); }
        "4"
    } else if d == 5 {
        proof { reveal_strlit("5"); }
        "5"
    } else if d == 6 {
        proof { reveal_strlit("6"); }
        "6"
    } else if d == 7 {
        proof { reveal_strlit("7"); }
        "7"
    } else if d == 8 {
        proof { reveal_strlit("8"); }
        "8"
    } else {
        proof { reveal_strlit("9"); }
        "9"
    }
}

/// The decimal representation of `n`.
pub fn decimal_string(n: u64) -> (r: String)
    ensures
        r@ == decimal(n as nat),
    decreases n,
{
    if n < 10 {
        String::from_str(digit_str(n))
    } else {
        let mut s = decimal_string(n / 10);
        s.append(digit_str(n % 10));
        s
    }
}

/// The cooked name of an expression, if it can be cooked.
fn cook_name(e: &Expr) -> (r: Option<String>)
    ensures
        match r {
            Some(s) => cooked_name(e@) == Some(s@),
            None => cooked_name(e@) is None,
        },
    decreases e,
{
    match e {
        Expr::Var(s) => Some(copy_string(s)),
        Expr::Num(n) => {
            if *n >= 0 {
                Some(decimal_string(*n as u64))
            } else {
                None
            }
        },
        Expr::Fun(f, args) => cook_call(f, args),
        _ => None,
    }
}

/// The cooked name of the call `f(args...)`, if it can be cooked.
fn cook_call(f: &String, args: &Vec<Expr>) -> (r: Option<String>)
    ensures
        match r {
            Some(s) => cooked_call(f@, views(*args)) == Some(s@),
            None => cooked_call(f@, views(*args)) is None,
        },
    decreases args,
{
    let mut acc = copy_string(f);
    let mut i: usize = 0;
    proof {
        lemma_terms_of(args@);
        assert(terms_of(args@).take(0) =~= Seq::<Term>::empty());
    }
    while i < args.len()
        invariant
            i <= args.len(),
            terms_of(args@).len() == args.len(),
            forall|j: int| 0 <= j < args.len() ==> terms_of(args@)[j] == #[trigger] args@[j]@,
            cooked_call(f@, terms_of(args@).take(i as int)) == Some(acc@),
        decreases args.len() - i,
    {
        let part = cook_name(&args[i]);
        proof {
            let t = terms_of(args@).take(i + 1);
            assert(t.drop_last() =~= terms_of(args@).take(i as int));
            assert(t.last() == args@[i as int]@);
        }
        match part {
            Some(p) => {
                acc.append("_");
                proof { reveal_strlit("_"); }
                acc.append(p.as_str());
            },
            None => {
                proof {
                    let t = terms_of(args@).take(i + 1);
                    lemma_cooked_call_prefix_fails(f@, terms_of(args@), i as int + 1);
                    assert(terms_of(args@) =~= views(*args));
                }
                return None;
            },
        }
        i = i + 1;
    }
    proof {
        assert(terms_of(args@).take(args.len() as int) =~= terms_of(args@));
    }
    Some(acc)
}

/// When cooking a prefix of the arguments fails, cooking all of them fails.
proof fn lemma_cooked_call_prefix_fails(f: Seq<char>, args: Seq<Term>, k: int)
    requires
        0 <= k <= args.len(),
        cooked_call(f, args.take(k)) is None,
    ensures
        cooked_call(f, args) is None,
    decreases args.len() - k,
{
    if k < args.len() {
        let t = args.take(k + 1);
        assert(t.drop_last() =~= args.take(k));
        lemma_cooked_call_prefix_fails(f, args, k + 1);
    } else {
        assert(args.take(k) =~= args);
    }
}

/// Cooks a function call into one variable; fails when the expression is not a
/// call, or when an argument is a sum, product, power or negative number.
pub fn cook_function(e: &Expr) -> (r: Result<Expr, CookingError>)
    ensures
        match (r, cook_function_spec(e@)) {
            (Ok(x), Ok(y)) => x@ == y,
            (Err(x), Err(y)) => x == y,
            _ => false,
        },
{
    match e {
        Expr::Fun(f, args) => match cook_call(f, args) {
            Some(name) => Ok(Expr::Var(name)),
            None => Err(CookingError::NotCookable),
        },
        _ => Err(CookingError::NotAFunction),
    }
}

/// Whether `name` is a representation of the table.
pub open spec fn is_table_rep(table: Seq<crate::reps::RepModel>, name: Seq<char>) -> bool {
    table_lookup(table, name) is Some
}

/// An argument after cooking its index: a slot `rep(dim, x)` of a known
/// representation whose index `x` is a cookable call gets the cooked variable
/// as its index.
pub open spec fn cook_slot_arg(table: Seq<crate::reps::RepModel>, t: Term) -> Term {
    match t {
        Term::Fun(r, a) => if is_table_rep(table, r) && a.len() == 2 && a[1] is Fun {
            match cook_function_spec(a[1]) {
                Ok(v) => Term::Fun(r, seq![a[0], v]),
                Err(_) => t,
            }
        } else {
            t
        },
        _ => t,
    }
}

/// Cooks the indices of every slot that appears as the argument of a call.
pub open spec fn cook_indices_spec(table: Seq<crate::reps::RepModel>, t: Term) -> Term
    decreases t,
{
    match t {
        Term::Num(n) => t,
        Term::Var(s) => t,
        Term::Fun(f, args) => Term::Fun(f, cook_indices_args(table, args)),
        Term::Add(xs) => Term::Add(cook_indices_seq(table, xs)),
        Term::Mul(xs) => Term::Mul(cook_indices_seq(table, xs)),
        Term::Pow(b, x) => Term::Pow(
            Box::new(cook_indices_spec(table, *b)),
            Box::new(cook_indices_spec(table, *x)),
        ),
    }
}

/// Cooks the indices inside each term of a sequence.
pub open spec fn cook_indices_seq(table: Seq<crate::reps::RepModel>, s: Seq<Term>) -> Seq<Term>
    decreases s,
{
    if s.len() == 0 {
        s
    } else {
        cook_indices_seq(table, s.drop_last()).push(cook_indices_spec(table, s.last()))
    }
}

/// Cooks the indices inside each argument of a call, then the argument itself
/// when it is a slot.
pub open spec fn cook_indices_args(table: Seq<crate::reps::RepModel>, s: Seq<Term>) -> Seq<Term>
    decreases s,
{
    if s.len() == 0 {
        s
    } else {
        cook_indices_args(table, s.drop_last()).push(
            cook_slot_arg(table, cook_indices_spec(table, s.last())),
        )
    }
}

/// Whether `name` names a representation of the table.
pub fn table_has(table: &RepTable, name: &String) -> (r: bool)
    ensures
        r == is_table_rep(table.model(), name@),
{
    table.lookup(name).is_some()
}

/// The argument after cooking the index of a slot.
fn cook_slot(table: &RepTable, t: Expr) -> (r: Expr)
    ensures
        r@ == cook_slot_arg(table.model(), t@),
{
    match t {
        Expr::Fun(rname, a) => {
            proof {
                lemma_terms_of(a@);
            }
            if table_has(table, &rname) && a.len() == 2 && matches!(a[1], Expr::Fun(_, _)) {
                match cook_function(&a[1]) {
                    Ok(v) => {
                        let d = a[0].deep_clone();
                        let args = vec![d, v];
                        proof {
                            lemma_terms_of(args@);
                            assert(terms_of(args@) =~= seq![terms_of(a@)[0], v@]);
                        }
                        Expr::Fun(rname, args)
                    },
                    Err(_) => Expr::Fun(rname, a),
                }
            } else {
                Expr::Fun(rname, a)
            }
        },
        other => other,
    }
}

/// Cooks the indices of every slot `rep(dim, f(...))` that appears as the
/// argument of a call: the index becomes the cooked variable of `f(...)`.
/// Slots whose index cannot be cooked are left as they are.
pub fn cook_indices(table: &RepTable, e: &Expr) -> (r: Expr)
    ensures
        r@ == cook_indices_spec(table.model(), e@),
    decreases e,
{
    match e {
        Expr::Num(n) => Expr::Num(*n),
        Expr::Var(s) => Expr::Var(copy_string(s)),
        Expr::Fun(f, args) => Expr::Fun(copy_string(f), cook_args(table, args)),
        Expr::Add(xs) => Expr::Add(cook_seq(table, xs)),
        Expr::Mul(xs) => Expr::Mul(cook_seq(table, xs)),
        Expr::Pow(b, x) => {
            let b2 = cook_indices(table, b);
            let x2 = cook_indices(table, x);
            Expr::Pow(Box::new(b2), Box::new(x2))
        },
    }
}

fn cook_seq(table: &RepTable, v: &Vec<Expr>) -> (r: Vec<Expr>)
    ensures
        views(r) == cook_indices_seq(table.model(), views(*v)),
    decreases v,
{
    let mut r: Vec<Expr> = Vec::new();
    let mut i: usize = 0;
    proof {
        lemma_terms_of(v@);
        assert(terms_of(v@).take(0) =~= Seq::<Term>::empty());
        assert(terms_of(r@) =~= Seq::<Term>::empty());
    }
    while i < v.len()
        invariant
            i <= v.len(),
            terms_of(v@).len() == v.len(),
            forall|j: int| 0 <= j < v.len() ==> terms_of(v@)[j] == #[trigger] v@[j]@,
            terms_of(r@) == cook_indices_seq(table.model(), terms_of(v@).take(i as int)),
        decreases v.len() - i,
    {
        let c = cook_indices(table, &v[i]);
        proof {
            lemma_terms_of_push(r@, c);
            let t = terms_of(v@).take(i + 1);
            assert(t.drop_last() =~= terms_of(v@).take(i as int));
        }
        r.push(c);
        i = i + 1;
    }
    proof {
        assert(terms_of(v@).take(v.len() as int) =~= terms_of(v@));
    }
    r
}

fn cook_args(table: &RepTable, v: &Vec<Expr>) -> (r: Vec<Expr>)
    ensures
        views(r) == cook_indices_args(table.model(), views(*v)),
    decreases v,
{
    let mut r: Vec<Expr> = Vec::new();
    let mut i: usize = 0;
    proof {
        lemma_terms_of(v@);
        assert(terms_of(v@).take(0) =~= Seq::<Term>::empty());
        assert(terms_of(r@) =~= Seq::<Term>::empty());
    }
    while i < v.len()
        invariant
            i <= v.len(),
            terms_of(v@).len() == v.len(),
            forall|j: int| 0 <= j < v.len() ==> terms_of(v@)[j] == #[trigger] v@[j]@,
            terms_of(r@) == cook_indices_args(table.model(), terms_of(v@).take(i as int)),
        decreases v.len() - i,
    {
        let c = cook_slot(table, cook_indices(table, &v[i]));
        proof {
            lemma_terms_of_push(r@, c);
            let t = terms_of(v@).take(i + 1);
            assert(t.drop_last() =~= terms_of(v@).take(i as int));
        }
        r.push(c);
        i = i + 1;
    }
    proof {
        assert(terms_of(v@).take(v.len() as int) =~= terms_of(v@));
    }
    r
}

proof fn lemma_cook_seq(table: Seq<crate::reps::RepModel>, s: Seq<Term>)
    ensures
        cook_indices_seq(table, s).len() == s.len(),
        cook_indices_args(table, s).len() == s.len(),
        forall|i: int|
            0 <= i < s.len() ==> #[trigger] cook_indices_seq(table, s)[i] == cook_indices_spec(
                table,
                s[i],
            ),
        forall|i: int|
            0 <= i < s.len() ==> #[trigger] cook_indices_args(table, s)[i] == cook_slot_arg(
                table,
                cook_indices_spec(table, s[i]),
            ),
    decreases s.len(),
{
    if s.len() > 0 {
        lemma_cook_seq(table, s.drop_last());
    }
}

/// Cooking indices twice cooks them once: a cooked index is a variable, and
/// only indices that are calls are cooked.
pub proof fn law_cook_indices_idempotent(table: Seq<crate::reps::RepModel>, t: Term)
    ensures
        cook_indices_spec(table, cook_indices_spec(table, t)) == cook_indices_spec(table, t),
    decreases t, 0nat,
{
    match t {
        Term::Fun(f, args) => {
            lemma_cook_args_idempotent(table, args);
        },
        Term::Add(xs) => {
            lemma_cook_seq_idempotent(table, xs);
        },
        Term::Mul(xs) => {
            lemma_cook_seq_idempotent(table, xs);
        },
        Term::Pow(b, x) => {
            law_cook_indices_idempotent(table, *b);
            law_cook_indices_idempotent(table, *x);
        },
        _ => {},
    }
}

proof fn lemma_cook_arg_idempotent(table: Seq<crate::reps::RepModel>, x: Term)
    ensures
        ({
            let y = cook_slot_arg(table, cook_indices_spec(table, x));
            cook_slot_arg(table, cook_indices_spec(table, y)) == y
        }),
    decreases x, 1nat,
{
    let y0 = cook_indices_spec(table, x);
    law_cook_indices_idempotent(table, x);
    let y = cook_slot_arg(table, y0);
    if y != y0 {
        let r = x->Fun_0;
        let xargs = x->Fun_1;
        lemma_cook_seq(table, xargs);
        let a = y0->Fun_1;
        assert(a == cook_indices_args(table, xargs));
        lemma_cook_arg_idempotent(table, xargs[0]);
        let v = y->Fun_1[1];
        assert(v is Var);
        assert(y == Term::Fun(r, seq![a[0], v]));
        lemma_cook_seq(table, seq![a[0], v]);
        assert(cook_indices_args(table, seq![a[0], v]) =~= seq![a[0], v]);
        assert(cook_indices_spec(table, y) == y);
    }
}

proof fn lemma_cook_args_idempotent(table: Seq<crate::reps::RepModel>, s: Seq<Term>)
    ensures
        cook_indices_args(table, cook_indices_args(table, s)) == cook_indices_args(table, s),
    decreases s, 0nat,
{
    let w = cook_indices_args(table, s);
    lemma_cook_seq(table, s);
    lemma_cook_seq(table, w);
    assert forall|i: int| 0 <= i < s.len() implies #[trigger] cook_indices_args(table, w)[i]
        == w[i] by {
        lemma_cook_arg_idempotent(table, s[i]);
    }
    assert(cook_indices_args(table, w) =~= w);
}

proof fn lemma_cook_seq_idempotent(table: Seq<crate::reps::RepModel>, s: Seq<Term>)
    ensures
        cook_indices_seq(table, cook_indices_seq(table, s)) == cook_indices_seq(table, s),
    decreases s, 0nat,
{
    let w = cook_indices_seq(table, s);
    lemma_cook_seq(table, s);
    lemma_cook_seq(table, w);
    assert forall|i: int| 0 <= i < s.len() implies #[trigger] cook_indices_seq(table, w)[i]
        == w[i] by {
        law_cook_indices_idempotent(table, s[i]);
    }
    assert(cook_indices_seq(table, w) =~= w);
}

/// The number that a string of decimal digits reads as: each character counts
/// its code less the code of `'0'`, the last one as units.
pub open spec fn digits_value(s: Seq<char>) -> int
    decreases s.len(),
{
    if s.len() == 0 {
        0
    } else {
        digits_value(s.drop_last()) * 10 + (s.last() as int - '0' as int)
    }
}

/// Each digit below ten is written as the character whose code is that of
/// `'0'` plus the digit.
pub proof fn law_digit_codes(d: nat)
    requires
        d < 10,
    ensures
        digit_char(d) as int == '0' as int + d,
{
}

/// The decimal representation of a number is made of the characters `'0'` to
/// `'9'` and reads back as the number; so two different numbers never have the
/// same representation.
pub proof fn law_decimal_reads_back(n: nat, m: nat)
    ensures
        forall|i: int| 0 <= i < decimal(n).len() ==> '0' <= #[trigger] decimal(n)[i] <= '9',
        digits_value(decimal(n)) == n,
        decimal(n) == decimal(m) ==> n == m,
    decreases n,
{
    lemma_decimal_reads_back(n);
    lemma_decimal_reads_back(m);
}

proof fn lemma_decimal_reads_back(n: nat)
    ensures
        forall|i: int| 0 <= i < decimal(n).len() ==> '0' <= #[trigger] decimal(n)[i] <= '9',
        digits_value(decimal(n)) == n,
    decreases n,
{
    if n < 10 {
        law_digit_codes(n);
        let s = decimal(n);
        assert(s.drop_last() =~= Seq::<char>::empty());
        assert(digits_value(s.drop_last()) == 0);
        assert(s.last() == digit_char(n));
    } else {
        let q = n / 10;
        let r = n % 10;
        lemma_decimal_reads_back(q);
        law_digit_codes(r);
        let s = decimal(n);
        assert(s.drop_last() =~= decimal(q));
        assert(s.last() == digit_char(r));
        assert(digits_value(s) == digits_value(decimal(q)) * 10 + (s.last() as int - '0' as int));
        assert(n == q * 10 + r);
        assert forall|i: int| 0 <= i < s.len() implies '0' <= #[trigger] s[i] <= '9' by {
            if i < s.len() - 1 {
                assert(s[i] == decimal(q)[i]);
            }
        }
    }
}

} // verus!
