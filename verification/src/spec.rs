//! Invariant specifications: which invariants to check for each function of
//! a contract, and custom assertions.
//!
//! A specification is written in TOML:
//! ```toml
//! [contract]
//! name = "token.aleo"
//!
//! [invariants.default]
//! balance_conservation = true
//! overflow_check = true
//! zero_amount = false
//!
//! [invariants.functions.mint_private]
//! balance_conservation = false
//!
//! [[assertions]]
//! type = "amount_conserved"
//! function = "transfer_private"
//! ```
use vstd::prelude::*;
use crate::parser::{Contract, ContractView};

verus! {

// ============================================================================
// Data
// ============================================================================

/// A parsed invariant specification.
#[derive(Debug, Clone)]
pub struct InvariantSpec {
    pub contract: ContractMeta,
    pub invariants: InvariantSettings,
    pub assertions: Vec<AssertionDef>,
}

/// The contract a specification targets.
#[derive(Debug, Clone)]
pub struct ContractMeta {
    pub name: String,
}

/// Default invariant toggles, and per-function overrides.
#[derive(Debug, Clone)]
pub struct InvariantSettings {
    /// Toggles that apply to every function.
    pub default: InvariantToggle,
    /// Per-function overrides: function name and its toggles.  A name
    /// occurs at most once (see `InvariantSettings::wf`).
    pub functions: Vec<(String, InvariantToggle)>,
}

/// On/off toggles of the invariants.  `None` leaves a toggle unset, so that
/// an override only names the invariants that it changes.
#[derive(Debug, Clone, Copy, PartialEq, Eq, Structural)]
pub struct InvariantToggle {
    /// Token supply is preserved across non-mint operations.
    pub balance_conservation: Option<bool>,
    /// Output records must have valid owner fields.
    pub owner_integrity: Option<bool>,
    /// Flag zero-amount operations as suspicious.
    pub zero_amount: Option<bool>,
    /// Flag self-transfers (sender == receiver).
    pub self_transfer: Option<bool>,
    /// Check for unsigned integer overflow in arithmetic.
    pub overflow_check: Option<bool>,
    /// Input records must be consumed, not passed through.
    pub record_consumption: Option<bool>,
    /// Flag unused `.private` input parameters.
    pub private_param_usage: Option<bool>,
}

/// Kinds of custom assertions.
#[derive(Debug, Clone, Copy, PartialEq, Eq, Structural)]
pub enum AssertionType {
    /// A named field exists in output records.
    FieldSet,
    /// Total input amount equals total output amount.
    AmountConserved,
    /// A named field is neither unknown nor zero.
    NoFieldNone,
    /// A numeric field lies within `[min, max]`.
    RangeCheck,
}

/// A custom assertion of a specification.
#[derive(Debug, Clone)]
pub struct AssertionDef {
    pub assertion_type: AssertionType,
    /// The function the assertion applies to.
    pub function: String,
    pub description: String,
    /// Target field (for `field_set`, `no_field_none`, `range_check`).
    pub field: Option<String>,
    /// Minimum (for `range_check`).
    pub min: Option<i64>,
    /// Maximum (for `range_check`).
    pub max: Option<i64>,
}

impl Default for InvariantToggle {
    fn default() -> (r: Self)
        ensures
            r == InvariantToggle::unset(),
    {
        InvariantToggle {
            balance_conservation: None,
            owner_integrity: None,
            zero_amount: None,
            self_transfer: None,
            overflow_check: None,
            record_consumption: None,
            private_param_usage: None,
        }
    }
}

impl Default for InvariantSettings {
    fn default() -> (r: Self)
        ensures
            r.default == InvariantToggle::unset(),
            r.functions@.len() == 0,
    {
        InvariantSettings { default: InvariantToggle::default(), functions: Vec::new() }
    }
}

// ============================================================================
// Specification
// ============================================================================

impl InvariantToggle {
    /// The toggle with nothing set.
    pub open spec fn unset() -> InvariantToggle {
        InvariantToggle {
            balance_conservation: None,
            owner_integrity: None,
            zero_amount: None,
            self_transfer: None,
            overflow_check: None,
            record_consumption: None,
            private_param_usage: None,
        }
    }

    /// `self` with every toggle that `o` sets replaced by `o`'s value.
    pub open spec fn overridden_by(self, o: InvariantToggle) -> InvariantToggle {
        InvariantToggle {
            balance_conservation: if o.balance_conservation is Some {
                o.balance_conservation
            } else {
                self.balance_conservation
            },
            owner_integrity: if o.owner_integrity is Some {
                o.owner_integrity
            } else {
                self.owner_integrity
            },
            zero_amount: if o.zero_amount is Some {
                o.zero_amount
            } else {
                self.zero_amount
            },
            self_transfer: if o.self_transfer is Some {
                o.self_transfer
            } else {
                self.self_transfer
            },
            overflow_check: if o.overflow_check is Some {
                o.overflow_check
            } else {
                self.overflow_check
            },
            record_consumption: if o.record_consumption is Some {
                o.record_consumption
            } else {
                self.record_consumption
            },
            private_param_usage: if o.private_param_usage is Some {
                o.private_param_usage
            } else {
                self.private_param_usage
            },
        }
    }

    /// Whether the invariant called `name` is enabled.  Safety invariants
    /// (balance conservation, owner integrity, overflow check, record
    /// consumption) default to enabled, informational ones (zero amount,
    /// self transfer, private parameter usage) to disabled; an unknown name
    /// counts as enabled.
    pub open spec fn enabled(self, name: Seq<char>) -> bool {
        if name == "balance_conservation"@ {
            unwrap_or(self.balance_conservation, true)
        } else if name == "owner_integrity"@ {
            unwrap_or(self.owner_integrity, true)
        } else if name == "zero_amount"@ {
            unwrap_or(self.zero_amount, false)
        } else if name == "self_transfer"@ {
            unwrap_or(self.self_transfer, false)
        } else if name == "overflow_check"@ {
            unwrap_or(self.overflow_check, true)
        } else if name == "record_consumption"@ {
            unwrap_or(self.record_consumption, true)
        } else if name == "private_param_usage"@ {
            unwrap_or(self.private_param_usage, false)
        } else {
            true
        }
    }
}

pub open spec fn unwrap_or(o: Option<bool>, d: bool) -> bool {
    match o {
        Some(b) => b,
        None => d,
    }
}

/// The override for `name`: the first entry with that name.
pub open spec fn lookup(fs: Seq<(String, InvariantToggle)>, name: Seq<char>) -> Option<InvariantToggle>
    decreases fs.len(),
{
    if fs.len() == 0 {
        None
    } else if fs[0].0@ == name {
        Some(fs[0].1)
    } else {
        lookup(fs.drop_first(), name)
    }
}

impl InvariantSettings {
    /// No function name has two overrides.
    pub open spec fn wf(self) -> bool {
        forall|i: int, j: int|
            0 <= i < j < self.functions@.len() ==> (#[trigger] self.functions@[i]).0@
                != (#[trigger] self.functions@[j]).0@
    }

    /// The toggles in effect for `name`.
    pub open spec fn resolved(self, name: Seq<char>) -> InvariantToggle {
        match lookup(self.functions@, name) {
            Some(o) => self.default.overridden_by(o),
            None => self.default,
        }
    }
}

/// `c` has a function named `name`.
pub open spec fn has_function(c: ContractView, name: Seq<char>) -> bool {
    exists|j: int| 0 <= j < c.functions.len() && (#[trigger] c.functions[j]).name == name
}

/// Warnings for overrides of functions that `c` lacks, in order.
pub open spec fn override_warnings(fs: Seq<(String, InvariantToggle)>, c: ContractView) -> Seq<
    Seq<char>,
>
    decreases fs.len(),
{
    if fs.len() == 0 {
        seq![]
    } else {
        let prev = override_warnings(fs.drop_last(), c);
        let k = fs.last().0@;
        if has_function(c, k) {
            prev
        } else {
            prev.push("function '"@ + k + "' in spec.invariants.functions not found in contract"@)
        }
    }
}

/// Warnings for assertions on functions that `c` lacks, in order.
pub open spec fn assertion_warnings(asserts: Seq<AssertionDef>, c: ContractView) -> Seq<Seq<char>>
    decreases asserts.len(),
{
    if asserts.len() == 0 {
        seq![]
    } else {
        let prev = assertion_warnings(asserts.drop_last(), c);
        let f = asserts.last().function@;
        if has_function(c, f) {
            prev
        } else {
            prev.push("assertion references function '"@ + f + "' not found in contract"@)
        }
    }
}

/// The warnings of checking `spec` against `c`.
pub open spec fn spec_warnings(spec: InvariantSpec, c: ContractView) -> Seq<Seq<char>> {
    let name_warning: Seq<Seq<char>> = if spec.contract.name@ != c.program {
        seq![
            "spec contract name '"@ + spec.contract.name@ + "' does not match contract program '"@
                + c.program + "'"@,
        ]
    } else {
        seq![]
    };
    name_warning + override_warnings(spec.invariants.functions@, c) + assertion_warnings(
        spec.assertions@,
        c,
    )
}

// ============================================================================
// Implementation
// ============================================================================

/// `a` and `b` hold the same text.
pub fn same_text(a: &str, b: &str) -> (r: bool)
    ensures
        r == (a@ == b@),
{
    String::from_str(a) == String::from_str(b)
}

impl InvariantSettings {
    /// The toggles in effect for `func_name`: the defaults, with every toggle
    /// that the function's override sets taking precedence.
    pub fn resolve(&self, func_name: &str) -> (r: InvariantToggle)
        ensures
            r == self.resolved(func_name@),
    {
        let mut i: usize = 0;
        assert(self.functions@.skip(0) =~= self.functions@);
        while i < self.functions.len()
            invariant
                i <= self.functions@.len(),
                lookup(self.functions@, func_name@) == lookup(
                    self.functions@.skip(i as int),
                    func_name@,
                ),
            decreases self.functions@.len() - i,
        {
            if same_text(self.functions[i].0.as_str(), func_name) {
                let o = self.functions[i].1;
                let d = self.default;
                return InvariantToggle {
                    balance_conservation: if o.balance_conservation.is_some() {
                        o.balance_conservation
                    } else {
                        d.balance_conservation
                    },
                    owner_integrity: if o.owner_integrity.is_some() {
                        o.owner_integrity
                    } else {
                        d.owner_integrity
                    },
                    zero_amount: if o.zero_amount.is_some() {
                        o.zero_amount
                    } else {
                        d.zero_amount
                    },
                    self_transfer: if o.self_transfer.is_some() {
                        o.self_transfer
                    } else {
                        d.self_transfer
                    },
                    overflow_check: if o.overflow_check.is_some() {
                        o.overflow_check
                    } else {
                        d.overflow_check
                    },
                    record_consumption: if o.record_consumption.is_some() {
                        o.record_consumption
                    } else {
                        d.record_consumption
                    },
                    private_param_usage: if o.private_param_usage.is_some() {
                        o.private_param_usage
                    } else {
                        d.private_param_usage
                    },
                };
            }
            assert(self.functions@.skip(i as int).drop_first() =~= self.functions@.skip(i + 1));
            i = i + 1;
        }
        self.default
    }
}

fn unwrap_bool(o: Option<bool>, d: bool) -> (r: bool)
    ensures
        r == unwrap_or(o, d),
{
    match o {
        Some(b) => b,
        None => d,
    }
}

impl InvariantToggle {
    /// Whether the invariant called `name` is enabled, with built-in defaults.
    pub fn is_enabled(&self, name: &str) -> (r: bool)
        ensures
            r == self.enabled(name@),
    {
        if same_text(name, "balance_conservation") {
            unwrap_bool(self.balance_conservation, true)
        } else if same_text(name, "owner_integrity") {
            unwrap_bool(self.owner_integrity, true)
        } else if same_text(name, "zero_amount") {
            unwrap_bool(self.zero_amount, false)
        } else if same_text(name, "self_transfer") {
            unwrap_bool(self.self_transfer, false)
        } else if same_text(name, "overflow_check") {
            unwrap_bool(self.overflow_check, true)
        } else if same_text(name, "record_consumption") {
            unwrap_bool(self.record_consumption, true)
        } else if same_text(name, "private_param_usage") {
            unwrap_bool(self.private_param_usage, false)
        } else {
            true
        }
    }
}

/// Whether `c` has a function named `name`.
pub fn contract_has_function(c: &Contract, name: &str) -> (r: bool)
    ensures
        r == has_function(c@, name@),
{
    let mut j: usize = 0;
    while j < c.functions.len()
        invariant
            j <= c.functions@.len(),
            forall|t: int| 0 <= t < j ==> c.functions@[t].name@ != name@,
        decreases c.functions@.len() - j,
    {
        if same_text(c.functions[j].name.as_str(), name) {
            assert(c@.functions[j as int].name == name@);
            return true;
        }
        j = j + 1;
    }
    assert(forall|t: int| 0 <= t < c@.functions.len() ==> c@.functions[t].name != name@);
    false
}

impl InvariantSettings {
    /// Whether no function name has two overrides.
    pub fn overrides_unique(&self) -> (r: bool)
        ensures
            r == self.wf(),
    {
        let n = self.functions.len();
        let mut i: usize = 0;
        while i < n
            invariant
                i <= n,
                n == self.functions@.len(),
                forall|a: int, b: int|
                    #![trigger self.functions@[a], self.functions@[b]]
                    0 <= a < b < n && a < i ==> self.functions@[a].0@ != self.functions@[b].0@,
            decreases n - i,
        {
            let mut j: usize = i + 1;
            while j < n
                invariant
                    i < n,
                    i + 1 <= j <= n,
                    n == self.functions@.len(),
                    forall|a: int, b: int|
                        #![trigger self.functions@[a], self.functions@[b]]
                        0 <= a < b < n && a < i ==> self.functions@[a].0@ != self.functions@[b].0@,
                    forall|b: int| i < b < j ==> self.functions@[i as int].0@ != (#[trigger] self.functions@[b]).0@,
                decreases n - j,
            {
                if same_text(self.functions[i].0.as_str(), self.functions[j].0.as_str()) {
                    assert(self.functions@[i as int].0@ == self.functions@[j as int].0@);
                    return false;
                }
                j = j + 1;
            }
            i = i + 1;
        }
        true
    }
}

/// Checks a specification against a contract and returns the warnings, in
/// order: a mismatch of the contract name, then each override of a function
/// the contract lacks, then each assertion on a function the contract lacks.
/// Override names are unique, as in a map from function name to toggles.
pub fn validate_spec(spec: &InvariantSpec, contract: &Contract) -> (warnings: Vec<String>)
    requires
        spec.invariants.wf(),
    ensures
        warnings@.map_values(|w: String| w@) == spec_warnings(*spec, contract@),
{
    let mut warnings: Vec<String> = Vec::new();
    if spec.contract.name != contract.program {
        let w = String::from_str("spec contract name '").concat(spec.contract.name.as_str()).concat(
            "' does not match contract program '",
        ).concat(contract.program.as_str()).concat("'");
        warnings.push(w);
    }
    let ghost base = warnings@.map_values(|w: String| w@);
    let fs = &spec.invariants.functions;
    let mut i: usize = 0;
    assert(fs@.take(0) =~= Seq::<(String, InvariantToggle)>::empty());
    while i < fs.len()
        invariant
            i <= fs@.len(),
            fs == &spec.invariants.functions,
            warnings@.map_values(|w: String| w@) == base + override_warnings(
                fs@.take(i as int),
                contract@,
            ),
        decreases fs@.len() - i,
    {
        let ghost prev = warnings@.map_values(|w: String| w@);
        assert(fs@.take(i + 1).drop_last() =~= fs@.take(i as int));
        if !contract_has_function(contract, fs[i].0.as_str()) {
            let w = String::from_str("function '").concat(fs[i].0.as_str()).concat(
                "' in spec.invariants.functions not found in contract",
            );
            warnings.push(w);
            assert(warnings@.map_values(|w: String| w@) =~= prev.push(w@));
        }
        i = i + 1;
    }
    assert(fs@.take(fs@.len() as int) =~= fs@);
    let ghost base2 = warnings@.map_values(|w: String| w@);
    let asserts = &spec.assertions;
    let mut k: usize = 0;
    assert(asserts@.take(0) =~= Seq::<AssertionDef>::empty());
    while k < asserts.len()
        invariant
            k <= asserts@.len(),
            asserts == &spec.assertions,
            warnings@.map_values(|w: String| w@) == base2 + assertion_warnings(
                asserts@.take(k as int),
                contract@,
            ),
        decreases asserts@.len() - k,
    {
        let ghost prev = warnings@.map_values(|w: String| w@);
        assert(asserts@.take(k + 1).drop_last() =~= asserts@.take(k as int));
        if !contract_has_function(contract, asserts[k].function.as_str()) {
            let w = String::from_str("assertion references function '").concat(
                asserts[k].function.as_str(),
            ).concat("' not found in contract");
            warnings.push(w);
            assert(warnings@.map_values(|w: String| w@) =~= prev.push(w@));
        }
        k = k + 1;
    }
    assert(asserts@.take(asserts@.len() as int) =~= asserts@);
    assert(warnings@.map_values(|w: String| w@) =~= spec_warnings(*spec, contract@));
    warnings
}

// ============================================================================
// Properties
// ============================================================================

/// A function without an override gets the default toggles.
pub proof fn resolve_without_override(settings: InvariantSettings, name: Seq<char>)
    requires
        lookup(settings.functions@, name) is None,
    ensures
        settings.resolved(name) == settings.default,
{
}

/// Where a toggle is left unset, safety invariants (balance
/// conservation, owner integrity, overflow check, record consumption) are
/// enabled and informational ones (zero amount, self transfer, private
/// parameter usage) are not.
pub proof fn unset_toggles_default(name: Seq<char>)
    ensures
        InvariantToggle::unset().enabled(name) == !(name == "zero_amount"@ || name == "self_transfer"@
            || name == "private_param_usage"@),
{
    reveal_strlit("balance_conservation");
    reveal_strlit("owner_integrity");
    reveal_strlit("zero_amount");
    reveal_strlit("self_transfer");
    reveal_strlit("overflow_check");
    reveal_strlit("record_consumption");
    reveal_strlit("private_param_usage");
    if name == "owner_integrity"@ {
        assert("owner_integrity"@[0] != "balance_conservation"@[0]);
    }
    if name == "zero_amount"@ {
        assert("zero_amount"@[0] != "balance_conservation"@[0]);
        assert("zero_amount"@[0] != "owner_integrity"@[0]);
    }
    if name == "self_transfer"@ {
        assert("self_transfer"@[0] != "balance_conservation"@[0]);
        assert("self_transfer"@[0] != "owner_integrity"@[0]);
        assert("self_transfer"@[0] != "zero_amount"@[0]);
    }
    if name == "overflow_check"@ {
        assert("overflow_check"@[0] != "balance_conservation"@[0]);
        assert("overflow_check"@[1] != "owner_integrity"@[1]);
        assert("overflow_check"@[0] != "zero_amount"@[0]);
        assert("overflow_check"@[0] != "self_transfer"@[0]);
    }
    if name == "record_consumption"@ {
        assert("record_consumption"@[0] != "balance_conservation"@[0]);
        assert("record_consumption"@[0] != "owner_integrity"@[0]);
        assert("record_consumption"@[0] != "zero_amount"@[0]);
        assert("record_consumption"@[0] != "self_transfer"@[0]);
        assert("record_consumption"@[0] != "overflow_check"@[0]);
    }
    if name == "private_param_usage"@ {
        assert("private_param_usage"@[0] != "balance_conservation"@[0]);
        assert("private_param_usage"@[0] != "owner_integrity"@[0]);
        assert("private_param_usage"@[0] != "zero_amount"@[0]);
        assert("private_param_usage"@[0] != "self_transfer"@[0]);
        assert("private_param_usage"@[0] != "overflow_check"@[0]);
        assert("private_param_usage"@[0] != "record_consumption"@[0]);
    }
}

proof fn lemma_override_warnings_empty(fs: Seq<(String, InvariantToggle)>, c: ContractView)
    ensures
        override_warnings(fs, c).len() == 0 <==> forall|i: int| 0 <= i < fs.len() ==> has_function(c, #[trigger] fs[i].0@),
    decreases fs.len(),
{
    if fs.len() > 0 {
        lemma_override_warnings_empty(fs.drop_last(), c);
        if override_warnings(fs, c).len() == 0 {
            assert forall|i: int| 0 <= i < fs.len() implies has_function(c, #[trigger] fs[i].0@) by {
                if i < fs.len() - 1 {
                    assert(fs[i] == fs.drop_last()[i]);
                }
            }
        }
        if forall|i: int| 0 <= i < fs.len() ==> has_function(c, #[trigger] fs[i].0@) {
            assert(has_function(c, fs[fs.len() - 1].0@));
            assert forall|i: int| 0 <= i < fs.len() - 1 implies has_function(c, #[trigger] fs.drop_last()[i].0@) by {
                assert(fs.drop_last()[i] == fs[i]);
            }
        }
    }
}

proof fn lemma_assertion_warnings_empty(asserts: Seq<AssertionDef>, c: ContractView)
    ensures
        assertion_warnings(asserts, c).len() == 0 <==> forall|i: int| 0 <= i < asserts.len() ==> has_function(c, #[trigger] asserts[i].function@),
    decreases asserts.len(),
{
    if asserts.len() > 0 {
        lemma_assertion_warnings_empty(asserts.drop_last(), c);
        if assertion_warnings(asserts, c).len() == 0 {
            assert forall|i: int| 0 <= i < asserts.len() implies has_function(c, #[trigger] asserts[i].function@) by {
                if i < asserts.len() - 1 {
                    assert(asserts[i] == asserts.drop_last()[i]);
                }
            }
        }
        if forall|i: int| 0 <= i < asserts.len() ==> has_function(c, #[trigger] asserts[i].function@) {
            assert(has_function(c, asserts[asserts.len() - 1].function@));
            assert forall|i: int| 0 <= i < asserts.len() - 1 implies has_function(c, #[trigger] asserts.drop_last()[i].function@) by {
                assert(asserts.drop_last()[i] == asserts[i]);
            }
        }
    }
}

/// Overrides of functions that `c` lacks.
pub open spec fn override_lacks_function(c: ContractView) -> spec_fn((String, InvariantToggle)) -> bool {
    |e: (String, InvariantToggle)| !has_function(c, e.0@)
}

/// Assertions on functions that `c` lacks.
pub open spec fn assertion_lacks_function(c: ContractView) -> spec_fn(AssertionDef) -> bool {
    |a: AssertionDef| !has_function(c, a.function@)
}

proof fn lemma_override_warning_count(fs: Seq<(String, InvariantToggle)>, c: ContractView)
    ensures
        override_warnings(fs, c).len() == fs.filter(override_lacks_function(c)).len(),
    decreases fs.len(),
{
    reveal(Seq::filter);
    if fs.len() > 0 {
        lemma_override_warning_count(fs.drop_last(), c);
    }
}

proof fn lemma_assertion_warning_count(asserts: Seq<AssertionDef>, c: ContractView)
    ensures
        assertion_warnings(asserts, c).len() == asserts.filter(assertion_lacks_function(c)).len(),
    decreases asserts.len(),
{
    reveal(Seq::filter);
    if asserts.len() > 0 {
        lemma_assertion_warning_count(asserts.drop_last(), c);
    }
}

/// A specification draws one warning if it names another program, one
/// per override of a function the contract lacks, and one per assertion
/// on a function the contract lacks.
pub proof fn warning_count(spec: InvariantSpec, c: ContractView)
    ensures
        spec_warnings(spec, c).len() == (if spec.contract.name@ != c.program { 1int } else { 0int })
            + spec.invariants.functions@.filter(override_lacks_function(c)).len()
            + spec.assertions@.filter(assertion_lacks_function(c)).len(),
{
    lemma_override_warning_count(spec.invariants.functions@, c);
    lemma_assertion_warning_count(spec.assertions@, c);
}

/// A specification draws no warning exactly when it names the
/// contract's program and every override and every assertion refers to a
/// function of the contract.
pub proof fn spec_consistent_iff_no_warnings(spec: InvariantSpec, c: ContractView)
    ensures
        spec_warnings(spec, c).len() == 0 <==> (spec.contract.name@ == c.program && (forall|i: int|
            0 <= i < spec.invariants.functions@.len() ==> has_function(
                c,
                #[trigger] spec.invariants.functions@[i].0@,
            )) && (forall|i: int|
            0 <= i < spec.assertions@.len() ==> has_function(c, #[trigger] spec.assertions@[i].function@))),
{
    lemma_override_warnings_empty(spec.invariants.functions@, c);
    lemma_assertion_warnings_empty(spec.assertions@, c);
}

/// How a report names an assertion type (its name in lower case).
pub open spec fn assertion_label(t: AssertionType) -> Seq<char> {
    match t {
        AssertionType::FieldSet => "fieldset"@,
        AssertionType::AmountConserved => "amountconserved"@,
        AssertionType::NoFieldNone => "nofieldnone"@,
        AssertionType::RangeCheck => "rangecheck"@,
    }
}

impl AssertionType {
    /// The type's name in lower case, as reports show it.
    pub fn label(&self) -> (r: String)
        ensures
            r@ == assertion_label(*self),
    {
        match self {
            AssertionType::FieldSet => String::from_str("fieldset"),
            AssertionType::AmountConserved => String::from_str("amountconserved"),
            AssertionType::NoFieldNone => String::from_str("nofieldnone"),
            AssertionType::RangeCheck => String::from_str("rangecheck"),
        }
    }
}

} // verus!
