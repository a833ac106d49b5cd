//! The whole frontend: source text to a checked core program.

use vstd::prelude::*;

use crate::frontend::diagnostic::Diagnostic;
use crate::id::ValueId;
use crate::ir::CoreError;
use crate::frontend::ast::{items_view, ItemV, Module};
use crate::frontend::lower::{
    bodies_lowered, copy_module, dup_item, echo_module, function_free, function_items, hands_back_first_input, lower_module_bodies, plain_module, plain_signatures, signature_param_error,
    signature_param_unresolved, type_field_error, type_field_unresolved, LowerError, LoweredModule,
};
use crate::frontend::parse::{char_span, failure_message, parse_module_diagnostics, sp_module};

verus! {

#[derive(Clone, Debug, PartialEq, Eq)]
pub enum FrontendError {
    Parse(Vec<Diagnostic>),
    Lower(LowerError),
}

/// Every module that parses as `items` has, as item `i`, a struct or an
/// enum whose field `k` is the first whose type does not resolve.
pub open spec fn parsed_field_unresolved(items: Seq<ItemV>, i: int, k: int) -> bool {
    forall|module: Module| #[trigger] items_view(module.items@) == items ==> type_field_unresolved(module.items@, i, k)
}

/// Every module that parses as `items` has plain type items and, as item
/// `i`, a function whose parameter `k` is the first whose type is bound
/// nowhere.
pub open spec fn parsed_param_unresolved(items: Seq<ItemV>, i: int, k: int) -> bool {
    forall|module: Module|
        #[trigger] items_view(module.items@) == items ==> plain_module(module.items@) && signature_param_unresolved(
            module.items@,
            i,
            k,
        )
}

/// Every module that parses as `items` is plain, with plain signatures,
/// and its first function uses its sole parameter as both operands of its
/// result.
pub open spec fn parsed_first_function_dup(items: Seq<ItemV>) -> bool {
    forall|module: Module|
        #[trigger] items_view(module.items@) == items ==> plain_module(module.items@) && plain_signatures(
            module.items@,
        ) && function_items(module.items@).len() > 0 && dup_item(function_items(module.items@)[0])
}

/// Parses and lowers a module. A parse failure comes back as its
/// diagnostics; a lowered module's program has passed the core checker.
pub fn compile_module(src: &str) -> (r: Result<LoweredModule, FrontendError>)
    ensures
        sp_module(src@) matches Err(e) ==> (r matches Err(FrontendError::Parse(ds)) && ds@.len() == 1
            && ds@[0].message@ == failure_message(e as nat) && ds@[0].span == Some(char_span(src@, e))),
        r is Ok ==> sp_module(src@) is Ok,
        r matches Err(FrontendError::Lower(_)) ==> sp_module(src@) is Ok,
        r matches Ok(m) ==> m.program.wf() && m.types.wf() && crate::ir::spec_check_program(&m.types, &m.program) is Ok,
        r matches Ok(m) ==> exists|module: Module|
            (sp_module(src@) matches Ok(items) && items == items_view(module.items@)) && #[trigger] bodies_lowered(module, m),
        sp_module(src@) matches Ok(items) ==> ((forall|module: Module|
            #[trigger] items_view(module.items@) == items ==> plain_module(module.items@) && plain_signatures(
                module.items@,
            ) && function_free(module.items@)) ==> r is Ok),
        sp_module(src@) matches Ok(items) ==> ((forall|module: Module|
            #[trigger] items_view(module.items@) == items ==> echo_module(module.items@)) ==> (r matches Ok(m)
            && forall|k: int|
            0 <= k < m.functions@.len() ==> hands_back_first_input(
                #[trigger] m.program.spec_functions()[m.functions@[k].id.0 as int],
            ))),
        sp_module(src@) matches Ok(items) ==> forall|i: int, k: int|
            #[trigger] parsed_field_unresolved(items, i, k) ==> exists|module: Module|
                #[trigger] items_view(module.items@) == items && (r matches Err(FrontendError::Lower(e))
                    && type_field_error(module.items@, i, k, e)),
        sp_module(src@) matches Ok(items) ==> forall|i: int, k: int|
            #[trigger] parsed_param_unresolved(items, i, k) ==> exists|module: Module|
                #[trigger] items_view(module.items@) == items && (r matches Err(FrontendError::Lower(e))
                    && signature_param_error(module.items@, i, k, e)),
        sp_module(src@) matches Ok(items) ==> ((forall|module: Module|
            #[trigger] items_view(module.items@) == items ==> copy_module(module.items@)) ==> r == Err::<
            LoweredModule,
            FrontendError,
        >(FrontendError::Lower(LowerError::Core(CoreError::ConsumedValue(ValueId(0)))))),
        sp_module(src@) matches Ok(items) ==> (parsed_first_function_dup(items) ==> exists|module: Module|
            #[trigger] items_view(module.items@) == items && (r matches Err(
                FrontendError::Lower(LowerError::DuplicateLinearUse(s)),
            ) && s@ == function_items(module.items@)[0].params@[0].name@)),
{
    let module = match parse_module_diagnostics(src) {
        Ok(m) => m,
        Err(ds) => {
            return Err(FrontendError::Parse(ds));
        },
    };
    let r = match lower_module_bodies(&module) {
        Ok(m) => {
            assert(bodies_lowered(module, m));
            Ok(m)
        },
        Err(e) => Err(FrontendError::Lower(e)),
    };
    proof {
        if let Ok(items) = sp_module(src@) {
            assert forall|i: int, k: int| #[trigger] parsed_field_unresolved(items, i, k) implies exists|
                other: Module,
            |
                #[trigger] items_view(other.items@) == items && (r matches Err(FrontendError::Lower(e))
                    && type_field_error(other.items@, i, k, e)) by {
                assert(items_view(module.items@) == items);
                assert(type_field_unresolved(module.items@, i, k));
            }
            assert forall|i: int, k: int| #[trigger] parsed_param_unresolved(items, i, k) implies exists|
                other: Module,
            |
                #[trigger] items_view(other.items@) == items && (r matches Err(FrontendError::Lower(e))
                    && signature_param_error(other.items@, i, k, e)) by {
                assert(items_view(module.items@) == items);
                assert(signature_param_unresolved(module.items@, i, k));
            }
            if parsed_first_function_dup(items) {
                assert(items_view(module.items@) == items);
            }
        }
    }
    r
}

} // verus!
