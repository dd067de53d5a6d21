//! The fixed, intentional configuration of one AST parse: detailed
//! preprocessing information is retained so inclusion directives and macro
//! entities are visible, bodies are skipped because this is a
//! metadata-extraction parse, individual diagnostics never abort the parse,
//! and attributed-type, implicit-attribute and conditionally-excluded
//! information is preserved for binding correctness. One parse is wholly
//! independent of any other.

use vstd::prelude::*;
use vstd::string::StringExecFns;

verus! {

/// The parser switches every session sets, all deliberately on.
#[derive(Debug)]
pub struct ParseOptions {
    pub detailed_preprocessing_record: bool,
    pub incomplete: bool,
    pub skip_function_bodies: bool,
    pub keep_going: bool,
    pub include_attributed_types: bool,
    pub visit_implicit_attributes: bool,
    pub retain_excluded_conditional_blocks: bool,
}

/// The one configuration every parse runs under.
pub fn parse_options() -> (r: ParseOptions)
    ensures
        r.detailed_preprocessing_record,
        r.incomplete,
        r.skip_function_bodies,
        r.keep_going,
        r.include_attributed_types,
        r.visit_implicit_attributes,
        r.retain_excluded_conditional_blocks,
{
    ParseOptions {
        detailed_preprocessing_record: true,
        incomplete: true,
        skip_function_bodies: true,
        keep_going: true,
        include_attributed_types: true,
        visit_implicit_attributes: true,
        retain_excluded_conditional_blocks: true,
    }
}

/// The entry header whose inclusions enumerate every framework's members.
pub fn entry_header() -> (r: String)
    ensures
        r@ == "framework-includes.h"@,
{
    String::from_str("framework-includes.h")
}

/// The command-line arguments of one parse: the language, the target triple
/// under test, warnings, the automatic-reference-counting and
/// binary-interface switches, API notes, and the SDK root the parse runs
/// against.
pub fn parser_arguments(llvm_target: &str, sdk_root: &str) -> (r: Vec<String>)
    ensures
        r@.len() == 11,
        r@[0]@ == "-x"@,
        r@[1]@ == "objective-c"@,
        r@[2]@ == "--target="@ + llvm_target@,
        r@[3]@ == "-Wall"@,
        r@[4]@ == "-Wextra"@,
        r@[5]@ == "-fobjc-arc"@,
        r@[6]@ == "-fobjc-arc-exceptions"@,
        r@[7]@ == "-fobjc-abi-version=2"@,
        r@[8]@ == "-fapinotes"@,
        r@[9]@ == "-isysroot"@,
        r@[10]@ == sdk_root@,
{
    let target = String::from_str("--target=").concat(llvm_target);
    let mut args: Vec<String> = Vec::new();
    args.push(String::from_str("-x"));
    args.push(String::from_str("objective-c"));
    args.push(target);
    args.push(String::from_str("-Wall"));
    args.push(String::from_str("-Wextra"));
    args.push(String::from_str("-fobjc-arc"));
    args.push(String::from_str("-fobjc-arc-exceptions"));
    args.push(String::from_str("-fobjc-abi-version=2"));
    args.push(String::from_str("-fapinotes"));
    args.push(String::from_str("-isysroot"));
    args.push(sdk_root.to_owned());
    args
}

} // verus!
