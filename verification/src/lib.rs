//! Schema compiler and package logic for the Office Open XML format family.

pub mod common;
pub mod context;
pub mod deserializer;
pub mod document;
pub mod emit;
pub mod features;
pub mod generate;
pub mod graph;
pub mod inspect;
pub mod models;
pub mod numbers;
pub mod opc_content_types;
pub mod opc_core_properties;
pub mod opc_relationships;
pub mod open_xml_part;
pub mod open_xml_schema;
pub mod package;
pub mod parse;
pub mod paths;
pub mod reduce_parts;
pub mod reduce_types;
pub mod round_trip;
pub mod sequence;
pub mod serializer;
pub mod symbols;
pub mod tables;
pub mod text;
pub mod utils;
pub mod validate;
pub mod validator;
pub mod xmlns;
