//! The names and fragments of the methods that are generated for each kind
//! of message.

use vstd::prelude::*;
use vstd::string::{StrSliceExecFns, StringExecFns};

verus! {

/// The text with its words joined in Pascal case (`pascal`) or in snake
/// case, as `convert_case` has it.
pub uninterp spec fn case_converted(text: Seq<char>, pascal: bool) -> Seq<char>;

/// `Casing::to_case` of `convert_case`, for `Case::Pascal` where `pascal`
/// and for `Case::Snake` otherwise.
#[verifier::external_body]
fn to_case(text: &str, pascal: bool) -> (converted: String)
    ensures
        converted@ == case_converted(text@, pascal),
{
    let case = if pascal {
        convert_case::Case::Pascal
    } else {
        convert_case::Case::Snake
    };
    convert_case::Casing::to_case(&text, case)
}

/// Whether the text is in snake case: converting it to snake case leaves it
/// as it is.
pub fn is_snake_case(text: &str) -> (snake: bool)
    ensures
        snake == (case_converted(text@, false) == text@),
{
    let converted = to_case(text, false);
    let given = text.to_owned();
    converted == given
}

/// An ASCII lower-case letter in upper case; any other character as it is.
pub open spec fn upper_ascii_char(c: char) -> char {
    if 'a' <= c <= 'z' {
        ((c as u8) - 32) as char
    } else {
        c
    }
}

/// The text with its first character in upper case, where that is an ASCII
/// lower-case letter.
pub open spec fn upper_first(text: Seq<char>) -> Seq<char> {
    if text.len() > 0 {
        seq![upper_ascii_char(text[0])] + text.skip(1)
    } else {
        text
    }
}

/// `String::push` of std: the text with one more character.
#[verifier::external_body]
pub(crate) fn push_char(text: &mut String, c: char)
    ensures
        final(text)@ == old(text)@.push(c),
{
    text.push(c)
}

/// Makes the first letter upper case.
pub fn upper_first_ascii(input: &str) -> (output: String)
    ensures
        output@ == upper_first(input@),
{
    let len = input.unicode_len();
    if len == 0 {
        return input.to_owned();
    }
    let first_char = input.get_char(0);
    if !(first_char >= 'a' && first_char <= 'z') {
        assert(upper_first(input@) =~= input@);
        return input.to_owned();
    }
    let upper = ((first_char as u8) - 32) as char;
    let mut result = String::new();
    push_char(&mut result, upper);
    let rest = input.substring_char(1, len);
    result.append(rest);
    assert(result@ =~= upper_first(input@));
    result
}

/// The kind of message that a method is generated for. A query carries
/// the names of the types that it returns, by the variant of the query.
#[derive(Debug, Clone, PartialEq, Eq)]
pub enum MethodGenType {
    Instantiate,
    Execute,
    Query(Vec<(String, String)>),
    Migrate,
    Sudo,
    Cw20Hook,
}

/// The return type that a query names for a variant: that of the first
/// entry under the name of the variant.
pub open spec fn looked_up(map: Seq<(String, String)>, variant: Seq<char>) -> Option<Seq<char>>
    decreases map.len(),
{
    if map.len() == 0 {
        None
    } else if map[0].0@ == variant {
        Some(map[0].1@)
    } else {
        looked_up(map.skip(1), variant)
    }
}

impl MethodGenType {
    /// The name of the generated method for a variant of the message.
    pub open spec fn method_name(&self, enum_variant: Seq<char>) -> Seq<char> {
        match self {
            MethodGenType::Instantiate => "instantiateIx"@,
            MethodGenType::Execute => "build"@ + case_converted(enum_variant, true) + "Ix"@,
            MethodGenType::Query(_) => "query"@ + case_converted(enum_variant, true),
            MethodGenType::Migrate => "migrateIx"@,
            MethodGenType::Sudo => "sudoExec"@ + case_converted(enum_variant, true) + "Ix"@,
            MethodGenType::Cw20Hook => "build"@ + case_converted(enum_variant, true) + "Cw20Ix"@,
        }
    }

    /// The extra arguments of the method.
    pub open spec fn extra_args(&self) -> Seq<char> {
        match self {
            MethodGenType::Instantiate | MethodGenType::Execute | MethodGenType::Sudo =>
                "funds?: Coin[]"@,
            MethodGenType::Query(_) | MethodGenType::Migrate => ""@,
            MethodGenType::Cw20Hook =>
                "tokenContractOrUnifiedDenom: string, amount: string | bigint | number"@,
        }
    }

    /// The call of the method of the base class, for a kind of message
    /// that has one.
    pub open spec fn parent_call(&self) -> Seq<char> {
        match self {
            MethodGenType::Query(_) => "this.query(msg)"@,
            MethodGenType::Cw20Hook =>
                "this.executeIxCw20(msg, tokenContractOrUnifiedDenom, amount)"@,
            _ => "this.executeIx(msg, funds)"@,
        }
    }

    /// The return type of the method for a variant of the message, for a
    /// kind of message that has a method of the base class to call.
    pub open spec fn returned_type(&self, enum_variant: Seq<char>) -> Seq<char> {
        match self {
            MethodGenType::Query(map) => match looked_up(map@, enum_variant) {
                Some(found) => found,
                None => "unknown"@,
            },
            _ => "ExecuteInstruction"@,
        }
    }

    /// Whether the method is for a query.
    pub fn is_query(&self) -> (query: bool)
        ensures
            query == (self is Query),
    {
        match self {
            MethodGenType::Query(_) => true,
            _ => false,
        }
    }

    /// The name of the generated method for a variant of the message.
    pub fn generate_method_name(&self, enum_variant: &str) -> (name: String)
        ensures
            name@ == self.method_name(enum_variant@),
    {
        match self {
            MethodGenType::Instantiate => "instantiateIx".to_owned(),
            MethodGenType::Execute => {
                let mut name = "build".to_owned();
                name.append(to_case(enum_variant, true).as_str());
                name.append("Ix");
                name
            },
            MethodGenType::Query(_) => {
                let mut name = "query".to_owned();
                name.append(to_case(enum_variant, true).as_str());
                name
            },
            MethodGenType::Migrate => "migrateIx".to_owned(),
            MethodGenType::Sudo => {
                let mut name = "sudoExec".to_owned();
                name.append(to_case(enum_variant, true).as_str());
                name.append("Ix");
                name
            },
            MethodGenType::Cw20Hook => {
                let mut name = "build".to_owned();
                name.append(to_case(enum_variant, true).as_str());
                name.append("Cw20Ix");
                name
            },
        }
    }

    /// Whether the extra arguments of the method come before the arguments
    /// of the message.
    pub fn prepend_extra_args(&self) -> (prepend: bool)
        ensures
            prepend == (self is Cw20Hook),
    {
        match self {
            MethodGenType::Cw20Hook => true,
            _ => false,
        }
    }

    /// The extra arguments of the method.
    pub fn extra_func_args(&self) -> (args: &'static str)
        ensures
            args@ == self.extra_args(),
    {
        match self {
            MethodGenType::Instantiate | MethodGenType::Execute | MethodGenType::Sudo => {
                "funds?: Coin[]"
            },
            MethodGenType::Query(_) | MethodGenType::Migrate => "",
            MethodGenType::Cw20Hook => {
                "tokenContractOrUnifiedDenom: string, amount: string | bigint | number"
            },
        }
    }

    /// The kind of message has a method of the base class to call: a
    /// message to execute, a query, and a message through a CW20 contract.
    pub open spec fn has_parent_func(&self) -> bool {
        self is Execute || self is Query || self is Cw20Hook
    }

    /// The call of the method of the base class. The kind of message must
    /// have one.
    pub fn parent_func_call(&self) -> (call: &'static str)
        requires
            self.has_parent_func(),
        ensures
            call@ == self.parent_call(),
    {
        match self {
            MethodGenType::Query(_) => "this.query(msg)",
            MethodGenType::Cw20Hook => {
                "this.executeIxCw20(msg, tokenContractOrUnifiedDenom, amount)"
            },
            _ => "this.executeIx(msg, funds)",
        }
    }

    /// The return type of the method for a variant of the message. The
    /// kind of message must have a method of the base class to call.
    pub fn return_type(&self, enum_variant: &str) -> (name: String)
        requires
            self.has_parent_func(),
        ensures
            name@ == self.returned_type(enum_variant@),
    {
        match self {
            MethodGenType::Query(return_type_map) => {
                let wanted = enum_variant.to_owned();
                let mut i: usize = 0;
                assert(return_type_map@.skip(0) =~= return_type_map@);
                while i < return_type_map.len()
                    invariant
                        i <= return_type_map.len(),
                        wanted@ == enum_variant@,
                        *self == MethodGenType::Query(*return_type_map),
                        looked_up(return_type_map@, enum_variant@) == looked_up(
                            return_type_map@.skip(i as int),
                            enum_variant@,
                        ),
                    decreases return_type_map.len() - i,
                {
                    let ghost rest = return_type_map@.skip(i as int);
                    assert(rest[0] == return_type_map@[i as int]);
                    assert(rest.skip(1) =~= return_type_map@.skip(i + 1));
                    if return_type_map[i].0 == wanted {
                        assert(looked_up(rest, enum_variant@) == Some(rest[0].1@));
                        let found = return_type_map[i].1.clone();
                        assert(found@ == rest[0].1@);
                        assert(self matches MethodGenType::Query(map) && map@
                            == return_type_map@);
                        return found;
                    }
                    assert(looked_up(rest, enum_variant@) == looked_up(
                        rest.skip(1),
                        enum_variant@,
                    ));
                    i += 1;
                }
                "unknown".to_owned()
            },
            _ => "ExecuteInstruction".to_owned(),
        }
    }
}

} // verus!
