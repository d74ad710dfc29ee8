//! What is wrong with a document that does not match its schema.

use crate::node::{NodeView, YamlWithSourceInfo};
use crate::path;
use crate::path::{copy_strings, join, InstancePath, SchemaPath, SegmentView};
use vstd::prelude::*;
use vstd::string::*;

verus! {

/// What kind of error it is. Numbers are held as they are spelled.
#[allow(inconsistent_fields)]
#[derive(Debug)]
pub enum ValidationErrorKind {
    /// A property is missing.
    MissingRequiredProperty {
        /// The property.
        property: String,
        /// The values that it may have, where they are limited.
        allowed: Option<Vec<String>>,
        /// The type that it must have, where one is known.
        expected_type: Option<String>,
    },
    /// A value has another type than it must have.
    TypeMismatch {
        /// The type that it must have.
        expected: String,
        /// The type that it has.
        got: String,
    },
    /// A value is none of those that are allowed.
    InvalidEnumValue {
        /// The value.
        value: String,
        /// The values that are allowed.
        allowed: Vec<String>,
    },
    /// A text does not match a pattern.
    StringPatternMismatch {
        /// The text.
        value: String,
        /// The pattern.
        pattern: String,
    },
    /// A number is too small or too large.
    NumberOutOfRange {
        /// The number.
        value: String,
        /// The range that it must be in.
        range: String,
    },
    /// A number is not a multiple of another.
    NumberNotMultipleOf {
        /// The number.
        value: String,
        /// What it must be a multiple of.
        multiple_of: String,
    },
    /// A property is not known.
    UnknownProperty {
        /// The property.
        property: String,
    },
    /// Two items of an array are the same.
    ArrayItemsNotUnique,
    /// Something else.
    Other {
        /// The error code.
        code: String,
        /// What is wrong.
        message: String,
    },
}

/// What a kind says, apart from how it is stored.
#[allow(inconsistent_fields)]
pub enum KindView {
    MissingRequiredProperty {
        property: Seq<char>,
        allowed: Option<Seq<Seq<char>>>,
        expected_type: Option<Seq<char>>,
    },
    TypeMismatch { expected: Seq<char>, got: Seq<char> },
    InvalidEnumValue { value: Seq<char>, allowed: Seq<Seq<char>> },
    StringPatternMismatch { value: Seq<char>, pattern: Seq<char> },
    NumberOutOfRange { value: Seq<char>, range: Seq<char> },
    NumberNotMultipleOf { value: Seq<char>, multiple_of: Seq<char> },
    UnknownProperty { property: Seq<char> },
    ArrayItemsNotUnique,
    Other { code: Seq<char>, message: Seq<char> },
}

/// The view of texts that may be missing.
pub open spec fn optional_strings(strings: Option<Vec<String>>) -> Option<Seq<Seq<char>>> {
    match strings {
        Some(s) => Some(path::string_views(s@)),
        None => None,
    }
}

/// The view of a text that may be missing.
pub open spec fn optional_string(string: Option<String>) -> Option<Seq<char>> {
    match string {
        Some(s) => Some(s@),
        None => None,
    }
}

impl View for ValidationErrorKind {
    type V = KindView;

    open spec fn view(&self) -> KindView {
        match self {
            ValidationErrorKind::MissingRequiredProperty { property, allowed, expected_type } =>
                KindView::MissingRequiredProperty {
                property: property@,
                allowed: optional_strings(*allowed),
                expected_type: optional_string(*expected_type),
            },
            ValidationErrorKind::TypeMismatch { expected, got } => KindView::TypeMismatch {
                expected: expected@,
                got: got@,
            },
            ValidationErrorKind::InvalidEnumValue { value, allowed } => KindView::InvalidEnumValue {
                value: value@,
                allowed: path::string_views(allowed@),
            },
            ValidationErrorKind::StringPatternMismatch { value, pattern } =>
                KindView::StringPatternMismatch { value: value@, pattern: pattern@ },
            ValidationErrorKind::NumberOutOfRange { value, range } => KindView::NumberOutOfRange {
                value: value@,
                range: range@,
            },
            ValidationErrorKind::NumberNotMultipleOf { value, multiple_of } =>
                KindView::NumberNotMultipleOf { value: value@, multiple_of: multiple_of@ },
            ValidationErrorKind::UnknownProperty { property } => KindView::UnknownProperty {
                property: property@,
            },
            ValidationErrorKind::ArrayItemsNotUnique => KindView::ArrayItemsNotUnique,
            ValidationErrorKind::Other { code, message } => KindView::Other {
                code: code@,
                message: message@,
            },
        }
    }
}

/// Copies a text that may be missing.
pub fn copy_optional(string: &Option<String>) -> (copy: Option<String>)
    ensures
        optional_string(copy) == optional_string(*string),
{
    match string {
        Some(s) => Some(s.clone()),
        None => None,
    }
}

impl Clone for ValidationErrorKind {
    fn clone(&self) -> (res: Self)
        ensures
            res@ == self@,
    {
        match self {
            ValidationErrorKind::MissingRequiredProperty { property, allowed, expected_type } =>
                ValidationErrorKind::MissingRequiredProperty {
                property: property.clone(),
                allowed: match allowed {
                    Some(values) => Some(copy_strings(values)),
                    None => None,
                },
                expected_type: copy_optional(expected_type),
            },
            ValidationErrorKind::TypeMismatch { expected, got } =>
                ValidationErrorKind::TypeMismatch { expected: expected.clone(), got: got.clone() },
            ValidationErrorKind::InvalidEnumValue { value, allowed } =>
                ValidationErrorKind::InvalidEnumValue {
                value: value.clone(),
                allowed: copy_strings(allowed),
            },
            ValidationErrorKind::StringPatternMismatch { value, pattern } =>
                ValidationErrorKind::StringPatternMismatch {
                value: value.clone(),
                pattern: pattern.clone(),
            },
            ValidationErrorKind::NumberOutOfRange { value, range } =>
                ValidationErrorKind::NumberOutOfRange {
                value: value.clone(),
                range: range.clone(),
            },
            ValidationErrorKind::NumberNotMultipleOf { value, multiple_of } =>
                ValidationErrorKind::NumberNotMultipleOf {
                value: value.clone(),
                multiple_of: multiple_of.clone(),
            },
            ValidationErrorKind::UnknownProperty { property } =>
                ValidationErrorKind::UnknownProperty { property: property.clone() },
            ValidationErrorKind::ArrayItemsNotUnique => ValidationErrorKind::ArrayItemsNotUnique,
            ValidationErrorKind::Other { code, message } => ValidationErrorKind::Other {
                code: code.clone(),
                message: message.clone(),
            },
        }
    }
}

/// The code of an error of the given kind.
pub open spec fn kind_code(kind: KindView) -> Seq<char> {
    match kind {
        KindView::MissingRequiredProperty { .. } => "Q-1-10"@,
        KindView::TypeMismatch { .. } => "Q-1-11"@,
        KindView::InvalidEnumValue { .. } => "Q-1-12"@,
        KindView::StringPatternMismatch { .. } => "Q-1-15"@,
        KindView::NumberOutOfRange { .. } => "Q-1-16"@,
        KindView::NumberNotMultipleOf { .. } => "Q-1-17"@,
        KindView::UnknownProperty { .. } => "Q-1-18"@,
        KindView::ArrayItemsNotUnique => "Q-1-19"@,
        KindView::Other { code, .. } => code,
    }
}

/// What an error of the given kind is told with.
pub open spec fn kind_message(kind: KindView) -> Seq<char> {
    match kind {
        KindView::MissingRequiredProperty { property, .. } => "Missing required property '"@
            + property + "'"@,
        KindView::TypeMismatch { expected, got } => "Expected "@ + expected + ", got "@ + got,
        KindView::InvalidEnumValue { value, allowed } => "Value '"@ + value
            + "' is not one of: "@ + path::joined(allowed, ", "@),
        KindView::StringPatternMismatch { value, pattern } => "String '"@ + value
            + "' does not match pattern '"@ + pattern + "'"@,
        KindView::NumberOutOfRange { value, range } => "Number "@ + value + " is not in range "@
            + range,
        KindView::NumberNotMultipleOf { value, multiple_of } => "Number "@ + value
            + " is not a multiple of "@ + multiple_of,
        KindView::UnknownProperty { property } => "Unknown property '"@ + property + "'"@,
        KindView::ArrayItemsNotUnique => "Array items must be unique"@,
        KindView::Other { message, .. } => message,
    }
}

/// The texts, one after the other.
fn concat3(a: &str, b: &str, c: &str) -> (whole: String)
    ensures
        whole@ == a@ + b@ + c@,
{
    let mut out = a.to_string();
    out.append(b);
    out.append(c);
    out
}

impl ValidationErrorKind {
    /// The code of the error.
    pub fn error_code(&self) -> (code: &str)
        ensures
            code@ == kind_code(self@),
    {
        match self {
            ValidationErrorKind::MissingRequiredProperty { .. } => "Q-1-10",
            ValidationErrorKind::TypeMismatch { .. } => "Q-1-11",
            ValidationErrorKind::InvalidEnumValue { .. } => "Q-1-12",
            ValidationErrorKind::StringPatternMismatch { .. } => "Q-1-15",
            ValidationErrorKind::NumberOutOfRange { .. } => "Q-1-16",
            ValidationErrorKind::NumberNotMultipleOf { .. } => "Q-1-17",
            ValidationErrorKind::UnknownProperty { .. } => "Q-1-18",
            ValidationErrorKind::ArrayItemsNotUnique => "Q-1-19",
            ValidationErrorKind::Other { code, .. } => code.as_str(),
        }
    }

    /// What is wrong, in words.
    pub fn message(&self) -> (message: String)
        ensures
            message@ == kind_message(self@),
    {
        match self {
            ValidationErrorKind::MissingRequiredProperty { property, .. } => concat3(
                "Missing required property '",
                property.as_str(),
                "'",
            ),
            ValidationErrorKind::TypeMismatch { expected, got } => {
                let mut out = concat3("Expected ", expected.as_str(), ", got ");
                out.append(got.as_str());
                out
            },
            ValidationErrorKind::InvalidEnumValue { value, allowed } => {
                let mut out = concat3("Value '", value.as_str(), "' is not one of: ");
                out.append(join(allowed, ", ").as_str());
                out
            },
            ValidationErrorKind::StringPatternMismatch { value, pattern } => {
                let mut out = concat3("String '", value.as_str(), "' does not match pattern '");
                out.append(pattern.as_str());
                out.append("'");
                out
            },
            ValidationErrorKind::NumberOutOfRange { value, range } => {
                let mut out = concat3("Number ", value.as_str(), " is not in range ");
                out.append(range.as_str());
                out
            },
            ValidationErrorKind::NumberNotMultipleOf { value, multiple_of } => {
                let mut out = concat3("Number ", value.as_str(), " is not a multiple of ");
                out.append(multiple_of.as_str());
                out
            },
            ValidationErrorKind::UnknownProperty { property } => concat3(
                "Unknown property '",
                property.as_str(),
                "'",
            ),
            ValidationErrorKind::ArrayItemsNotUnique => "Array items must be unique".to_string(),
            ValidationErrorKind::Other { message, .. } => message.clone(),
        }
    }
}

/// An error, with the paths to where it was found.
#[derive(Debug)]
pub struct ValidationError {
    /// What kind of error it is.
    pub kind: ValidationErrorKind,
    /// The path through the document to the value that is wrong.
    pub instance_path: InstancePath,
    /// The path through the schema to what is not met.
    pub schema_path: SchemaPath,
    /// The value that is wrong, where it is known.
    pub yaml_node: Option<YamlWithSourceInfo>,
    /// A hint of the schema's author. It takes the place of the generated one.
    pub custom_hint: Option<String>,
}

/// What an error says, apart from how it is stored.
pub struct ValidationErrorView {
    pub kind: KindView,
    pub instance_path: Seq<SegmentView>,
    pub schema_path: Seq<Seq<char>>,
    pub node: Option<NodeView>,
    pub custom_hint: Option<Seq<char>>,
}

impl View for ValidationError {
    type V = ValidationErrorView;

    open spec fn view(&self) -> ValidationErrorView {
        ValidationErrorView {
            kind: self.kind@,
            instance_path: self.instance_path@,
            schema_path: self.schema_path@,
            node: match self.yaml_node {
                Some(node) => Some(node@),
                None => None,
            },
            custom_hint: optional_string(self.custom_hint),
        }
    }
}

impl ValidationError {
    /// An error of which nothing but its kind and its place in the document is known.
    pub fn new(kind: ValidationErrorKind, instance_path: InstancePath) -> (error: Self)
        ensures
            error@ == (ValidationErrorView {
                kind: kind@,
                instance_path: instance_path@,
                schema_path: Seq::empty(),
                node: None,
                custom_hint: None,
            }),
    {
        ValidationError {
            kind,
            instance_path,
            schema_path: SchemaPath::new(),
            yaml_node: None,
            custom_hint: None,
        }
    }

    /// The code of the error.
    pub fn error_code(&self) -> (code: &str)
        ensures
            code@ == kind_code(self@.kind),
    {
        self.kind.error_code()
    }

    /// What is wrong, in words.
    pub fn message(&self) -> (message: String)
        ensures
            message@ == kind_message(self@.kind),
    {
        self.kind.message()
    }
}

} // verus!
