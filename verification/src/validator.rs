//! Validation rules for the positional arguments of a command.

use vstd::prelude::*;
use crate::error::{Error, Result};
use crate::text::{decimal, push_decimal, push_str_chars, str_eq, string_from_chars};

verus! {

/// A user-supplied rule on the arguments of a command.
pub trait ArgCheck: Send + Sync {
    /// Whether `r` is a possible outcome of this rule on `args`.
    spec fn admits(&self, args: Seq<String>, r: Result<()>) -> bool;

    fn check(&self, args: &[String]) -> (r: Result<()>)
        ensures
            self.admits(args@, r),
    ;
}

/// `f` accepts every list of arguments.
pub open spec fn check_total<F: Fn(&[String]) -> Result<()>>(f: F) -> bool {
    forall|a: &[String]| call_requires(f, (a,))
}

/// Whether `r` is a possible outcome of the closure `f` on `args`.
pub open spec fn check_admits<F: Fn(&[String]) -> Result<()>>(f: F, args: Seq<String>, r: Result<()>) -> bool {
    exists|a: &[String]| a@ == args && call_ensures(f, (a,), r)
}

/// A validation closure that accepts every list of arguments.
pub struct CheckFn<F: Fn(&[String]) -> Result<()>> {
    f: F,
}

impl<F: Fn(&[String]) -> Result<()>> CheckFn<F> {
    #[verifier::type_invariant]
    spec fn total(self) -> bool {
        check_total(self.f)
    }

    /// The closure.
    pub closed spec fn func(self) -> F {
        self.f
    }

    /// Wraps `f`, which must accept every list of arguments.
    pub fn new(f: F) -> (r: CheckFn<F>)
        requires
            check_total(f),
        ensures
            r.func() == f,
    {
        CheckFn { f }
    }
}

impl<F: Fn(&[String]) -> Result<()> + Send + Sync> ArgCheck for CheckFn<F> {
    open spec fn admits(&self, args: Seq<String>, r: Result<()>) -> bool {
        check_admits(self.func(), args, r)
    }

    fn check(&self, args: &[String]) -> (r: Result<()>) {
        proof {
            use_type_invariant(self);
        }
        (self.f)(args)
    }
}

/// A rule on the number or values of a command's arguments.
#[derive(Clone)]
pub enum ArgValidator {
    /// Exactly N arguments.
    ExactArgs(usize),
    /// At least N arguments.
    MinimumArgs(usize),
    /// At most N arguments.
    MaximumArgs(usize),
    /// Between min and max arguments, both included.
    RangeArgs(usize, usize),
    /// Every argument must be one of these.
    OnlyValidArgs(Vec<String>),
    /// A rule of the user's.
    Custom(std::sync::Arc<Box<dyn ArgCheck>>),
}

/// `parts` joined by `sep`.
pub open spec fn join_with(parts: Seq<Seq<char>>, sep: Seq<char>) -> Seq<char>
    decreases parts.len(),
{
    if parts.len() == 0 {
        Seq::empty()
    } else if parts.len() == 1 {
        parts[0]
    } else {
        join_with(parts.drop_last(), sep) + sep + parts.last()
    }
}

/// Whether `r` is an `ArgumentValidation` error with these fields.
pub open spec fn validation_error(r: Result<()>, message: Seq<char>, expected: Seq<char>, received: nat) -> bool {
    r matches Err(Error::ArgumentValidation { message: m, expected: e, received: n }) && m@
        == message && e@ == expected && n == received
}

/// Whether `a` is among `valid`.
pub open spec fn is_listed(valid: Seq<String>, a: Seq<char>) -> bool {
    exists|j: int| 0 <= j < valid.len() && valid[j]@ == a
}

/// The outcome of a built-in rule on `args` (every variant but `Custom`).
pub open spec fn builtin_outcome(v: ArgValidator, args: Seq<String>, r: Result<()>) -> bool {
    let n = args.len();
    match v {
        ArgValidator::ExactArgs(e) => if n != e {
            validation_error(
                r,
                "accepts "@ + decimal(e as nat) + " arg(s), received "@ + decimal(n),
                decimal(e as nat),
                n,
            )
        } else {
            r is Ok
        },
        ArgValidator::MinimumArgs(m) => if n < m {
            validation_error(
                r,
                "requires at least "@ + decimal(m as nat) + " arg(s), received "@ + decimal(n),
                "at least "@ + decimal(m as nat),
                n,
            )
        } else {
            r is Ok
        },
        ArgValidator::MaximumArgs(m) => if n > m {
            validation_error(
                r,
                "accepts at most "@ + decimal(m as nat) + " arg(s), received "@ + decimal(n),
                "at most "@ + decimal(m as nat),
                n,
            )
        } else {
            r is Ok
        },
        ArgValidator::RangeArgs(lo, hi) => if n < lo || n > hi {
            validation_error(
                r,
                "accepts between "@ + decimal(lo as nat) + " and "@ + decimal(hi as nat)
                    + " arg(s), received "@ + decimal(n),
                decimal(lo as nat) + " to "@ + decimal(hi as nat),
                n,
            )
        } else {
            r is Ok
        },
        ArgValidator::OnlyValidArgs(valid) => if forall|i: int|
            0 <= i < n ==> is_listed(valid@, #[trigger] args[i]@) {
            r is Ok
        } else {
            exists|k: int|
                0 <= k < n && !is_listed(valid@, #[trigger] args[k]@) && (forall|i: int|
                    0 <= i < k ==> is_listed(valid@, #[trigger] args[i]@)) && validation_error(
                    r,
                    "invalid argument \""@ + args[k]@ + "\""@,
                    "one of: "@ + join_with(Seq::new(valid@.len(), |j: int| valid@[j]@), ", "@),
                    n,
                )
        },
        ArgValidator::Custom(_) => true,
    }
}

/// `OnlyValidArgs(valid)` accepts `args` exactly when every argument is
/// one of `valid`; otherwise it fails with an `ArgumentValidation` error
/// naming the first argument that is not.
pub proof fn lemma_only_valid_args_checks_every_argument(
    valid: Vec<String>,
    args: Seq<String>,
    r: Result<()>,
)
    requires
        builtin_outcome(ArgValidator::OnlyValidArgs(valid), args, r),
    ensures
        (r is Ok) <==> (forall|i: int| 0 <= i < args.len() ==> is_listed(valid@, #[trigger] args[i]@)),
        !(r is Ok) ==> exists|k: int|
            {
                &&& 0 <= k < args.len()
                &&& !is_listed(valid@, #[trigger] args[k]@)
                &&& (r matches Err(Error::ArgumentValidation { message: m, .. }) && m@
                    == "invalid argument \""@ + args[k]@ + "\""@)
            },
{
}

fn usize_text(n: usize) -> (s: Vec<char>)
    ensures
        s@ == decimal(n as nat),
{
    let mut v: Vec<char> = Vec::new();
    push_decimal(&mut v, n);
    assert(v@ =~= decimal(n as nat));
    v
}

fn validation_err(message: Vec<char>, expected: Vec<char>, received: usize) -> (r: Result<()>)
    ensures
        validation_error(r, message@, expected@, received as nat),
{
    Err(
        Error::ArgumentValidation {
            message: string_from_chars(&message),
            expected: string_from_chars(&expected),
            received,
        },
    )
}

fn listed_exec(valid: &Vec<String>, a: &String) -> (r: bool)
    ensures
        r == is_listed(valid@, a@),
{
    let mut j: usize = 0;
    while j < valid.len()
        invariant
            j <= valid@.len(),
            forall|k: int| 0 <= k < j ==> valid@[k]@ != a@,
        decreases valid.len() - j,
    {
        if str_eq(valid[j].as_str(), a.as_str()) {
            return true;
        }
        j = j + 1;
    }
    false
}

fn join_exec(valid: &Vec<String>, sep: &str) -> (r: Vec<char>)
    ensures
        r@ == join_with(Seq::new(valid@.len(), |j: int| valid@[j]@), sep@),
{
    let ghost parts = Seq::new(valid@.len(), |j: int| valid@[j]@);
    let mut out: Vec<char> = Vec::new();
    let mut j: usize = 0;
    assert(parts.take(0) =~= Seq::<Seq<char>>::empty());
    while j < valid.len()
        invariant
            j <= valid@.len(),
            parts.len() == valid@.len(),
            forall|k: int| 0 <= k < parts.len() ==> #[trigger] parts[k] == valid@[k]@,
            out@ == join_with(parts.take(j as int), sep@),
        decreases valid.len() - j,
    {
        proof {
            assert(parts.take(j + 1).drop_last() =~= parts.take(j as int));
            assert(parts.take(j + 1).last() == parts[j as int]);
        }
        if j > 0 {
            push_str_chars(&mut out, sep);
        }
        push_str_chars(&mut out, valid[j].as_str());
        proof {
            if j == 0 {
                assert(out@ =~= parts.take(1)[0]);
            }
        }
        j = j + 1;
    }
    assert(parts.take(j as int) =~= parts);
    out
}

impl ArgValidator {
    /// A `Custom` rule from a closure or other [`ArgCheck`].
    pub fn custom<F: Fn(&[String]) -> Result<()> + Send + Sync + 'static>(rule: F) -> (v: ArgValidator)
        requires
            check_total(rule),
        ensures
            v is Custom,
            forall|a: Seq<String>, r: Result<()>| #[trigger] v->Custom_0.admits(a, r) == check_admits(rule, a, r),
    {
        let w = CheckFn::new(rule);
        assert(forall|a: Seq<String>, r: Result<()>| #[trigger] w.admits(a, r) == check_admits(rule, a, r));
        let b: Box<dyn ArgCheck> = Box::new(w);
        assert(forall|a: Seq<String>, r: Result<()>| #[trigger] b.admits(a, r) == w.admits(a, r));
        let c = std::sync::Arc::new(b);
        assert(forall|a: Seq<String>, r: Result<()>| #[trigger] c.admits(a, r) == w.admits(a, r));
        let v = ArgValidator::Custom(c);
        assert(forall|a: Seq<String>, r: Result<()>| #[trigger] v->Custom_0.admits(a, r) == w.admits(a, r));
        v
    }

    /// Checks `args` against this rule: `Ok` when they satisfy it, an
    /// `ArgumentValidation` error describing the breach otherwise; a
    /// `Custom` rule decides for itself.
    pub fn validate(&self, args: &[String]) -> (r: Result<()>)
        ensures
            match self {
                ArgValidator::Custom(c) => c.admits(args@, r),
                _ => builtin_outcome(*self, args@, r),
            },
    {
        let n = args.len();
        match self {
            ArgValidator::ExactArgs(e) => {
                if n != *e {
                    let mut m: Vec<char> = Vec::new();
                    push_str_chars(&mut m, "accepts ");
                    push_decimal(&mut m, *e);
                    push_str_chars(&mut m, " arg(s), received ");
                    push_decimal(&mut m, n);
                    return validation_err(m, usize_text(*e), n);
                }
                Ok(())
            },
            ArgValidator::MinimumArgs(min) => {
                if n < *min {
                    let mut m: Vec<char> = Vec::new();
                    push_str_chars(&mut m, "requires at least ");
                    push_decimal(&mut m, *min);
                    push_str_chars(&mut m, " arg(s), received ");
                    push_decimal(&mut m, n);
                    let mut x: Vec<char> = Vec::new();
                    push_str_chars(&mut x, "at least ");
                    push_decimal(&mut x, *min);
                    return validation_err(m, x, n);
                }
                Ok(())
            },
            ArgValidator::MaximumArgs(max) => {
                if n > *max {
                    let mut m: Vec<char> = Vec::new();
                    push_str_chars(&mut m, "accepts at most ");
                    push_decimal(&mut m, *max);
                    push_str_chars(&mut m, " arg(s), received ");
                    push_decimal(&mut m, n);
                    let mut x: Vec<char> = Vec::new();
                    push_str_chars(&mut x, "at most ");
                    push_decimal(&mut x, *max);
                    return validation_err(m, x, n);
                }
                Ok(())
            },
            ArgValidator::RangeArgs(lo, hi) => {
                if n < *lo || n > *hi {
                    let mut m: Vec<char> = Vec::new();
                    push_str_chars(&mut m, "accepts between ");
                    push_decimal(&mut m, *lo);
                    push_str_chars(&mut m, " and ");
                    push_decimal(&mut m, *hi);
                    push_str_chars(&mut m, " arg(s), received ");
                    push_decimal(&mut m, n);
                    let mut x: Vec<char> = Vec::new();
                    push_decimal(&mut x, *lo);
                    push_str_chars(&mut x, " to ");
                    push_decimal(&mut x, *hi);
                    return validation_err(m, x, n);
                }
                Ok(())
            },
            ArgValidator::OnlyValidArgs(valid) => {
                let mut i: usize = 0;
                while i < n
                    invariant
                        i <= n,
                        n == args@.len(),
                        *self == ArgValidator::OnlyValidArgs(*valid),
                        forall|k: int| 0 <= k < i ==> is_listed(valid@, #[trigger] args@[k]@),
                    decreases n - i,
                {
                    if !listed_exec(valid, &args[i]) {
                        let mut m: Vec<char> = Vec::new();
                        push_str_chars(&mut m, "invalid argument \"");
                        push_str_chars(&mut m, args[i].as_str());
                        push_str_chars(&mut m, "\"");
                        let mut x: Vec<char> = Vec::new();
                        push_str_chars(&mut x, "one of: ");
                        let joined = join_exec(valid, ", ");
                        crate::text::push_slice(&mut x, &joined);
                        let r = validation_err(m, x, n);
                        assert(!is_listed(valid@, args@[i as int]@));
                        assert(x@ =~= "one of: "@ + join_with(
                            Seq::new(valid@.len(), |j: int| valid@[j]@),
                            ", "@,
                        ));
                        assert(m@ =~= "invalid argument \""@ + args@[i as int]@ + "\""@);
                        assert(0 <= i < n && !is_listed(valid@, args@[i as int]@) && (forall|q: int|
                            0 <= q < i ==> is_listed(valid@, #[trigger] args@[q]@))
                            && validation_error(
                            r,
                            "invalid argument \""@ + args@[i as int]@ + "\""@,
                            "one of: "@ + join_with(Seq::new(valid@.len(), |j: int| valid@[j]@), ", "@),
                            n as nat,
                        ));
                        assert(!(forall|q: int| 0 <= q < n ==> is_listed(valid@, #[trigger] args@[q]@)));
                        assert(builtin_outcome(*self, args@, r));
                        return r;
                    }
                    i = i + 1;
                }
                Ok(())
            },
            ArgValidator::Custom(c) => c.check(args),
        }
    }
}

} // verus!
