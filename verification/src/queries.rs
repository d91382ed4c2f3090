//! Tree-sitter query definitions per language: each names the definitions it captures
//! (`@definition.*`), their names (`@name`) and parameter lists (`@params`).
use vstd::prelude::*;

verus! {

/// The Rust query text.
pub open spec fn rust_query_text() -> Seq<char> {
    r#"
(function_item
  name: (identifier) @name
  parameters: (parameters) @params) @definition.function

(struct_item
  name: (type_identifier) @name) @definition.struct

(enum_item
  name: (type_identifier) @name) @definition.enum

(trait_item
  name: (type_identifier) @name) @definition.trait

(type_item
  name: (type_identifier) @name) @definition.type

(const_item
  name: (identifier) @name) @definition.const

(impl_item
  body: (declaration_list
    (function_item
      name: (identifier) @name
      parameters: (parameters) @params) @definition.method))
"#@
}

/// The tree-sitter query for Rust definitions.
pub fn rust_query() -> (r: &'static str)
    ensures
        r@ == rust_query_text(),
{
    r#"
(function_item
  name: (identifier) @name
  parameters: (parameters) @params) @definition.function

(struct_item
  name: (type_identifier) @name) @definition.struct

(enum_item
  name: (type_identifier) @name) @definition.enum

(trait_item
  name: (type_identifier) @name) @definition.trait

(type_item
  name: (type_identifier) @name) @definition.type

(const_item
  name: (identifier) @name) @definition.const

(impl_item
  body: (declaration_list
    (function_item
      name: (identifier) @name
      parameters: (parameters) @params) @definition.method))
"#
}

/// The Python query text.
pub open spec fn python_query_text() -> Seq<char> {
    r#"
(function_definition
  name: (identifier) @name
  parameters: (parameters) @params) @definition.function

(class_definition
  name: (identifier) @name) @definition.class
"#@
}

/// The tree-sitter query for Python definitions.
pub fn python_query() -> (r: &'static str)
    ensures
        r@ == python_query_text(),
{
    r#"
(function_definition
  name: (identifier) @name
  parameters: (parameters) @params) @definition.function

(class_definition
  name: (identifier) @name) @definition.class
"#
}

/// The Go query text.
pub open spec fn go_query_text() -> Seq<char> {
    r#"
(function_declaration
  name: (identifier) @name
  parameters: (parameter_list) @params) @definition.function

(method_declaration
  name: (field_identifier) @name
  parameters: (parameter_list) @params) @definition.method

(type_declaration
  (type_spec
    name: (type_identifier) @name) @definition.type)
"#@
}

/// The tree-sitter query for Go definitions.
pub fn go_query() -> (r: &'static str)
    ensures
        r@ == go_query_text(),
{
    r#"
(function_declaration
  name: (identifier) @name
  parameters: (parameter_list) @params) @definition.function

(method_declaration
  name: (field_identifier) @name
  parameters: (parameter_list) @params) @definition.method

(type_declaration
  (type_spec
    name: (type_identifier) @name) @definition.type)
"#
}

/// The Java query text.
pub open spec fn java_query_text() -> Seq<char> {
    r#"
(method_declaration
  name: (identifier) @name
  parameters: (formal_parameters) @params) @definition.method

(class_declaration
  name: (identifier) @name) @definition.class

(interface_declaration
  name: (identifier) @name) @definition.interface

(enum_declaration
  name: (identifier) @name) @definition.enum
"#@
}

/// The tree-sitter query for Java definitions.
pub fn java_query() -> (r: &'static str)
    ensures
        r@ == java_query_text(),
{
    r#"
(method_declaration
  name: (identifier) @name
  parameters: (formal_parameters) @params) @definition.method

(class_declaration
  name: (identifier) @name) @definition.class

(interface_declaration
  name: (identifier) @name) @definition.interface

(enum_declaration
  name: (identifier) @name) @definition.enum
"#
}

/// The C query text.
pub open spec fn c_query_text() -> Seq<char> {
    r#"
(function_definition
  declarator: (function_declarator
    declarator: (identifier) @name
    parameters: (parameter_list) @params)) @definition.function

(struct_specifier
  name: (type_identifier) @name) @definition.struct

(enum_specifier
  name: (type_identifier) @name) @definition.enum
"#@
}

/// The tree-sitter query for C definitions.
pub fn c_query() -> (r: &'static str)
    ensures
        r@ == c_query_text(),
{
    r#"
(function_definition
  declarator: (function_declarator
    declarator: (identifier) @name
    parameters: (parameter_list) @params)) @definition.function

(struct_specifier
  name: (type_identifier) @name) @definition.struct

(enum_specifier
  name: (type_identifier) @name) @definition.enum
"#
}

/// The C++ query text.
pub open spec fn cpp_query_text() -> Seq<char> {
    r#"
(function_definition
  declarator: (function_declarator
    declarator: (identifier) @name
    parameters: (parameter_list) @params)) @definition.function

(class_specifier
  name: (type_identifier) @name) @definition.class

(struct_specifier
  name: (type_identifier) @name) @definition.struct

(enum_specifier
  name: (type_identifier) @name) @definition.enum
"#@
}

/// The tree-sitter query for C++ definitions.
pub fn cpp_query() -> (r: &'static str)
    ensures
        r@ == cpp_query_text(),
{
    r#"
(function_definition
  declarator: (function_declarator
    declarator: (identifier) @name
    parameters: (parameter_list) @params)) @definition.function

(class_specifier
  name: (type_identifier) @name) @definition.class

(struct_specifier
  name: (type_identifier) @name) @definition.struct

(enum_specifier
  name: (type_identifier) @name) @definition.enum
"#
}

/// The Ruby query text.
pub open spec fn ruby_query_text() -> Seq<char> {
    r#"
(method
  name: (identifier) @name
  parameters: (method_parameters) @params) @definition.method

(class
  name: (constant) @name) @definition.class

(module
  name: (constant) @name) @definition.class
"#@
}

/// The tree-sitter query for Ruby definitions.
pub fn ruby_query() -> (r: &'static str)
    ensures
        r@ == ruby_query_text(),
{
    r#"
(method
  name: (identifier) @name
  parameters: (method_parameters) @params) @definition.method

(class
  name: (constant) @name) @definition.class

(module
  name: (constant) @name) @definition.class
"#
}

} // verus!
