use vstd::prelude::*;

verus! {

/// The call sites a TSX file is searched for: calls, `new`, and JSX elements
/// (captured as `jsx_callee`).
pub const TSX_REFERENCE_QUERY: &'static str = "
(call_expression
  function: (identifier) @callee)

(call_expression
  function: (member_expression
    property: (property_identifier) @callee))

(new_expression
  constructor: (identifier) @callee)

(jsx_opening_element
  name: (identifier) @jsx_callee)

(jsx_self_closing_element
  name: (identifier) @jsx_callee)

(jsx_opening_element
  name: (member_expression
    property: (property_identifier) @jsx_callee))

(jsx_self_closing_element
  name: (member_expression
    property: (property_identifier) @jsx_callee))
";

} // verus!
