use vstd::prelude::*;

use crate::text::{ascii_lower, ascii_lower_char, str_eq, to_ascii_lowercase};

verus! {

/// Integration method for inflow state updates.
#[derive(Clone, Copy, Debug, PartialEq, Eq, Structural)]
pub enum IntegrationMethod {
    /// Explicit Euler: lam_{n+1} = lam_n + dt * dlam_n
    ExplicitEuler,
    /// Semi-implicit Euler with tau damping: (lam + dt*dlam)/(1 + dt/tau)
    SemiImplicitEuler,
    /// Exact first-order relaxation update (frozen target over dt):
    /// lam_{n+1} = lam_n + tau * (1 - exp(-dt/tau)) * dlam_n
    ExponentialRelaxation,
}

/// Method named by an already lower-cased word.
pub open spec fn method_from_word(t: Seq<char>) -> Option<IntegrationMethod> {
    if t == "semi_implicit"@ || t == "semi-implicit"@ || t == "semiimplicit"@ || t == "implicit"@ {
        Some(IntegrationMethod::SemiImplicitEuler)
    } else if t == "explicit"@ || t == "explicit_euler"@ || t == "explicit-euler"@ {
        Some(IntegrationMethod::ExplicitEuler)
    } else if t == "exponential"@ || t == "exponential_relaxation"@ || t
        == "exponential-relaxation"@ || t == "exp"@ {
        Some(IntegrationMethod::ExponentialRelaxation)
    } else {
        None
    }
}

/// A method name that is not known; `name` is the lower-cased word.
#[derive(Clone, Debug)]
pub struct UnknownIntegrationMethod {
    pub name: String,
}

/// Text of the refusal for an unknown (lower-cased) method name.
pub open spec fn unknown_method_message(name: Seq<char>) -> Seq<char> {
    "Unknown integration_method '"@ + name
        + "'. Use 'semi_implicit', 'explicit', or 'exponential'."@
}

impl UnknownIntegrationMethod {
    /// The refusal as text, naming the unknown method and the known ones.
    pub fn message(&self) -> (r: String)
        ensures
            r@ == unknown_method_message(self.name@),
    {
        let mut m = String::from_str("Unknown integration_method '");
        m.append(self.name.as_str());
        m.append("'. Use 'semi_implicit', 'explicit', or 'exponential'.");
        m
    }
}

impl IntegrationMethod {
    /// Method named by an already lower-cased word.
    pub fn from_word(t: &str) -> (r: Option<IntegrationMethod>)
        ensures
            r == method_from_word(t@),
    {
        if str_eq(t, "semi_implicit") || str_eq(t, "semi-implicit") || str_eq(t, "semiimplicit")
            || str_eq(t, "implicit") {
            Some(IntegrationMethod::SemiImplicitEuler)
        } else if str_eq(t, "explicit") || str_eq(t, "explicit_euler") || str_eq(t, "explicit-euler") {
            Some(IntegrationMethod::ExplicitEuler)
        } else if str_eq(t, "exponential") || str_eq(t, "exponential_relaxation") || str_eq(
            t,
            "exponential-relaxation",
        ) || str_eq(t, "exp") {
            Some(IntegrationMethod::ExponentialRelaxation)
        } else {
            None
        }
    }
}

/// Outcome of reading a method name: ASCII case is ignored; an unknown name
/// is refused with its lower-cased form.
pub open spec fn method_outcome(w: Seq<char>) -> Result<IntegrationMethod, Seq<char>> {
    match method_from_word(ascii_lower(w)) {
        Some(m) => Ok(m),
        None => Err(ascii_lower(w)),
    }
}

/// Reads an integration method name (ASCII case ignored); no name means
/// semi-implicit Euler.
pub fn parse_integration_method(method: Option<&str>) -> (r: Result<
    IntegrationMethod,
    UnknownIntegrationMethod,
>)
    ensures
        method is None ==> r == Ok::<IntegrationMethod, UnknownIntegrationMethod>(
            IntegrationMethod::SemiImplicitEuler,
        ),
        method matches Some(w) ==> match (r, method_outcome(w@)) {
            (Ok(m), Ok(n)) => m == n,
            (Err(e), Err(t)) => e.name@ == t,
            _ => false,
        },
{
    let w = match method {
        Some(w) => w,
        None => "semi_implicit",
    };
    let lower = to_ascii_lowercase(w);
    proof {
        if method is None {
            reveal_strlit("semi_implicit");
            assert(ascii_lower(w@) =~= w@);
        }
    }
    match IntegrationMethod::from_word(lower.as_str()) {
        Some(m) => Ok(m),
        None => Err(UnknownIntegrationMethod { name: lower }),
    }
}

/// ASCII lower-casing is idempotent.
pub proof fn lemma_ascii_lower_idempotent(s: Seq<char>)
    ensures
        ascii_lower(ascii_lower(s)) == ascii_lower(s),
{
    assert forall|i: int| 0 <= i < s.len() implies ascii_lower_char(ascii_lower_char(s[i]))
        == ascii_lower_char(s[i]) by {}
    assert(ascii_lower(ascii_lower(s)) =~= ascii_lower(s));
}

/// Reading a method name ignores ASCII case: a name and its lower-cased form
/// give the same method, or the same refusal.
pub proof fn lemma_method_case_insensitive(w: Seq<char>)
    ensures
        method_outcome(w) == method_outcome(ascii_lower(w)),
{
    lemma_ascii_lower_idempotent(w);
}

} // verus!
