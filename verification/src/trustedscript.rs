//! Script text that a trusted-types policy has vouched for.

use vstd::prelude::*;
use vstd::string::StringExecFns;

verus! {

/// Script source that came out of a trusted-types policy.
pub struct TrustedScript {
    data: String,
}

/// What a script sink is handed: script that is trusted already, or a plain
/// string.
pub enum TrustedScriptOrString {
    String(String),
    TrustedScript(TrustedScript),
}

/// What has to happen before a value may reach a script sink.
pub enum ScriptCompliance {
    /// The value was trusted script: this is its text, to be used as it is.
    Compliant(String),
    /// The value was a plain string: the default policy has to decide on it.
    NeedsDefaultPolicy {
        /// The string to hand to the policy.
        value: String,
        /// The sink, as the policy is told it: class and field, with one
        /// space between them.
        sink: String,
        /// The group that the sink belongs to.
        sink_group: String,
    },
}

/// The name under which a policy is told of the sink `field` of
/// `containing_class`.
pub open spec fn sink_name(containing_class: Seq<char>, field: Seq<char>) -> Seq<char> {
    containing_class + seq![' '] + field
}

impl View for TrustedScript {
    type V = Seq<char>;

    closed spec fn view(&self) -> Seq<char> {
        self.data@
    }
}

impl TrustedScript {
    fn new_inherited(data: String) -> (script: Self)
        ensures
            script@ == data@,
    {
        Self { data }
    }

    pub fn new(data: String) -> (script: Self)
        ensures
            script@ == data@,
    {
        Self::new_inherited(data)
    }

    /// Decides what a script sink does with `value`. Trusted script passes
    /// with its text. A plain string goes to the default policy, together
    /// with the name of the sink and the group `'script'`.
    pub fn get_trusted_script_compliant_string(
        value: TrustedScriptOrString,
        containing_class: &str,
        field: &str,
    ) -> (compliance: ScriptCompliance)
        ensures
            match value {
                TrustedScriptOrString::String(string) => compliance matches ScriptCompliance::NeedsDefaultPolicy {
                    value: v,
                    sink,
                    sink_group,
                } && v@ == string@ && sink@ == sink_name(containing_class@, field@)
                    && sink_group@ == "'script'"@,
                TrustedScriptOrString::TrustedScript(script) => compliance matches ScriptCompliance::Compliant(
                    text,
                ) && text@ == script@,
            },
    {
        match value {
            TrustedScriptOrString::String(value) => {
                let mut sink = String::from_str(containing_class);
                proof {
                    reveal_strlit(" ");
                    assert(" "@ =~= seq![' ']);
                }
                sink.append(" ");
                sink.append(field);
                ScriptCompliance::NeedsDefaultPolicy {
                    value,
                    sink,
                    sink_group: String::from_str("'script'"),
                }
            },
            TrustedScriptOrString::TrustedScript(trusted_script) => ScriptCompliance::Compliant(
                trusted_script.data,
            ),
        }
    }

    /// The text of the script, as a string.
    pub fn to_string(&self) -> (text: String)
        ensures
            text@ == self@,
    {
        self.data.clone()
    }

    /// What the script turns into where a string is asked for: its text.
    pub fn stringifier(&self) -> (text: String)
        ensures
            text@ == self@,
    {
        self.data.clone()
    }

    /// What the script turns into where JSON is asked for: its text.
    pub fn to_json(&self) -> (text: String)
        ensures
            text@ == self@,
    {
        self.data.clone()
    }
}

} // verus!
