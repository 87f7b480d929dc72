//! Contextual hints shown during completion, optionally only when a
//! condition on the command context holds.

use vstd::prelude::*;
use crate::context::Context;
use crate::text::{IntoText, ascii_lower, ascii_lower_chars, chars_eq, str_chars};

verus! {

/// A condition deciding whether a hint is shown.
pub trait HelpCondition: Send + Sync {
    /// Whether `shown` is a possible answer of this condition on `ctx`.
    spec fn admits(&self, ctx: Context, shown: bool) -> bool;

    fn evaluate(&self, ctx: &Context) -> (shown: bool)
        ensures
            self.admits(*ctx, shown),
    ;
}

/// `f` accepts every context.
pub open spec fn condition_total<F: Fn(&Context) -> bool>(f: F) -> bool {
    forall|c: &Context| call_requires(f, (c,))
}

/// Whether `shown` is a possible answer of the closure `f` on `ctx`.
pub open spec fn condition_admits<F: Fn(&Context) -> bool>(f: F, ctx: Context, shown: bool) -> bool {
    exists|c: &Context| *c == ctx && call_ensures(f, (c,), shown)
}

/// A condition closure that accepts every context.
pub struct ConditionFn<F: Fn(&Context) -> bool> {
    f: F,
}

impl<F: Fn(&Context) -> bool> ConditionFn<F> {
    #[verifier::type_invariant]
    spec fn total(self) -> bool {
        condition_total(self.f)
    }

    /// The closure.
    pub closed spec fn func(self) -> F {
        self.f
    }

    /// Wraps `f`, which must accept every context.
    pub fn new(f: F) -> (r: ConditionFn<F>)
        requires
            condition_total(f),
        ensures
            r.func() == f,
    {
        ConditionFn { f }
    }
}

impl<F: Fn(&Context) -> bool + Send + Sync> HelpCondition for ConditionFn<F> {
    open spec fn admits(&self, ctx: Context, shown: bool) -> bool {
        condition_admits(self.func(), ctx, shown)
    }

    fn evaluate(&self, ctx: &Context) -> (shown: bool) {
        proof {
            use_type_invariant(self);
        }
        (self.f)(ctx)
    }
}

/// A hint message, with an optional condition for showing it.
#[derive(Clone)]
pub struct ActiveHelp {
    /// The message.
    pub message: String,
    /// When present, the hint is shown only if this holds.
    pub condition: Option<std::sync::Arc<Box<dyn HelpCondition>>>,
}

/// Whether `shown` is a possible display decision for `h` on `ctx`.
pub open spec fn display_decision(h: ActiveHelp, ctx: Context, shown: bool) -> bool {
    match h.condition {
        None => shown,
        Some(c) => c.admits(ctx, shown),
    }
}

impl ActiveHelp {
    /// A hint that is always shown.
    pub fn new<S: IntoText>(message: S) -> (h: ActiveHelp)
        ensures
            h.message@ == message.text(),
            h.condition is None,
    {
        ActiveHelp { message: message.into_string(), condition: None }
    }

    /// A hint shown only when `condition` holds on the context.
    pub fn with_condition<S: IntoText, F: Fn(&Context) -> bool + Send + Sync + 'static>(message: S, condition: F) -> (h:
        ActiveHelp)
        requires
            condition_total(condition),
        ensures
            h.message@ == message.text(),
            h.condition is Some,
            forall|c: Context, b: bool|
                #[trigger] h.condition->0.admits(c, b) == condition_admits(condition, c, b),
    {
        let w = ConditionFn::new(condition);
        assert(forall|c: Context, b: bool| #[trigger] w.admits(c, b) == condition_admits(condition, c, b));
        let b: Box<dyn HelpCondition> = Box::new(w);
        assert(forall|c: Context, bb: bool| #[trigger] b.admits(c, bb) == w.admits(c, bb));
        let a = std::sync::Arc::new(b);
        assert(forall|c: Context, bb: bool| #[trigger] a.admits(c, bb) == w.admits(c, bb));
        let h = ActiveHelp { message: message.into_string(), condition: Some(a) };
        assert(forall|c: Context, bb: bool| #[trigger] h.condition->0.admits(c, bb) == w.admits(c, bb));
        h
    }

    /// Whether the hint is shown on `ctx`: always without a condition,
    /// otherwise as the condition decides.
    pub fn should_display(&self, ctx: &Context) -> (r: bool)
        ensures
            display_decision(*self, *ctx, r),
    {
        match &self.condition {
            None => true,
            Some(c) => c.evaluate(ctx),
        }
    }

    /// A copy sharing the same condition.
    pub fn duplicate(&self) -> (r: ActiveHelp)
        ensures
            r.message@ == self.message@,
            r.condition == self.condition,
    {
        let condition = match &self.condition {
            None => None,
            Some(c) => Some(c.clone()),
        };
        ActiveHelp { message: self.message.clone(), condition }
    }
}

/// Settings of the hint system.
pub struct ActiveHelpConfig {
    /// Show hints on a double TAB.
    pub show_on_double_tab: bool,
    /// Show hints when there are no completions.
    pub show_on_no_completions: bool,
    /// Hints are switched off.
    pub disabled: bool,
    /// The environment variable that can switch hints off.
    pub disable_env_var: Option<String>,
}

/// Whether an environment value switches hints off: `0` or `false`, in
/// any ASCII case.
pub open spec fn disables(value: Seq<char>) -> bool {
    ascii_lower(value) == "0"@ || ascii_lower(value) == "false"@
}

impl ActiveHelpConfig {

    /// Whether hints are on, given the value of the configured environment
    /// variable (`None` when it is unset or no variable is configured).
    pub fn is_enabled(&self, env_value: Option<&str>) -> (r: bool)
        ensures
            r == (!self.disabled && !(self.disable_env_var is Some && env_value is Some && disables(
                env_value->0@,
            ))),
    {
        if self.disabled {
            return false;
        }
        if self.disable_env_var.is_some() {
            if let Some(v) = env_value {
                let l = ascii_lower_chars(&str_chars(v));
                let zero = str_chars("0");
                let f = str_chars("false");
                return !(chars_eq(&l, &zero) || chars_eq(&l, &f));
            }
        }
        true
    }
}


impl Default for ActiveHelpConfig {
    /// The default settings: hints on, switched off by `COBRA_ACTIVE_HELP`.
    fn default() -> (c: ActiveHelpConfig)
        ensures
            c.show_on_double_tab,
            c.show_on_no_completions,
            !c.disabled,
            c.disable_env_var matches Some(v) && v@ == "COBRA_ACTIVE_HELP"@,
    {
        ActiveHelpConfig {
            show_on_double_tab: true,
            show_on_no_completions: true,
            disabled: false,
            disable_env_var: Some(crate::text::to_owned_string("COBRA_ACTIVE_HELP")),
        }
    }
}

} // verus!
