use vstd::prelude::*;

verus! {

/// The definitions a JavaScript file is searched for.
pub const JAVASCRIPT_SYMBOL_QUERY: &'static str = "
(function_declaration
  name: (identifier) @name) @definition

(class_declaration
  name: (identifier) @name) @definition

(method_definition
  name: (property_identifier) @name) @definition

(method_definition
  name: (private_property_identifier) @name) @definition

(variable_declarator
  name: (identifier) @name
  value: (arrow_function)) @definition
";

/// The call sites a JavaScript file is searched for: calls, `new`, and JSX
/// elements (captured as `jsx_callee`).
pub const JAVASCRIPT_REFERENCE_QUERY: &'static str = "
(call_expression
  function: (identifier) @callee)

(call_expression
  function: (member_expression
    property: (property_identifier) @callee))

(new_expression
  constructor: (identifier) @callee)

(jsx_opening_element
  name: (identifier) @jsx_callee)

(jsx_self_closing_element
  name: (identifier) @jsx_callee)

(jsx_opening_element
  name: (member_expression
    property: (property_identifier) @jsx_callee))

(jsx_self_closing_element
  name: (member_expression
    property: (property_identifier) @jsx_callee))
";

/// A JSX element names a component (not an HTML tag) when it starts with an
/// ASCII capital letter.
pub open spec fn is_component_name(name: Seq<char>) -> bool {
    name.len() > 0 && 'A' <= name[0] && name[0] <= 'Z'
}

/// Whether a JSX element name names a component.
pub fn is_component_name_of(name: &[char]) -> (b: bool)
    ensures
        b == is_component_name(name@),
{
    name.len() > 0 && 'A' <= name[0] && name[0] <= 'Z'
}

} // verus!
