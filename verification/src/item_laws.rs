//! What holds of imported items and how they are shown.

use vstd::prelude::*;
use crate::items::constant_text;
use crate::items::field_lines;
use crate::items::function_text;
use crate::items::item_details;
use crate::items::item_in_module;
use crate::items::meant_constant;
use crate::items::meant_function;
use crate::items::meant_struct;
use crate::items::module_matches;
use crate::items::module_summary;
use crate::items::module_with_item;
use crate::items::parameter_text;
use crate::items::parameter_texts;
use crate::items::struct_text;
use crate::items::lemma_last_segment;
use crate::model::FunctionEnv;
use crate::model::ModuleEnv;
use crate::model::NamedConstantEnv;
use crate::model::StructEnv;
use crate::search::first;
use crate::search::lemma_first;
use crate::text::contains;
use crate::text::join;
use crate::text::last_segment;
use crate::text::occurs_at;
use crate::text_laws::law_join;
use crate::text_laws::law_contains_middle;
use crate::text_laws::law_last_piece;
use crate::text_laws::numeral;

verus! {

/// What stands behind the parameters of a function as it is shown.
pub open spec fn signature_end(fun: FunctionEnv) -> Seq<char> {
    ") -> "@ + fun.result_type@ + "\n```"@
}

/// A function without parameters is shown with its name, an empty pair of parentheses and its
/// result type.
pub proof fn law_function_without_parameters(fun: FunctionEnv)
    requires
        fun.parameters@.len() == 0,
    ensures
        function_text(fun) == "```rust \npublic fun "@ + fun.name@ + "("@ + signature_end(fun),
{
    reveal_strlit(") -> ");
    reveal_strlit(")");
    reveal_strlit(" -> ");
    law_join(seq![], seq![], ", "@);
    assert(parameter_texts(fun.parameters@) =~= seq![]);
    assert(function_text(fun) =~= "```rust \npublic fun "@ + fun.name@ + "("@ + signature_end(fun));
}

/// A further parameter is shown behind the others, after a comma if there are any, with its name and
/// its type; nothing else changes.
pub proof fn law_function_with_another_parameter(fun: FunctionEnv, less: FunctionEnv)
    requires
        fun.parameters@.len() > 0,
        less.name@ == fun.name@,
        less.result_type@ == fun.result_type@,
        less.parameters@ == fun.parameters@.drop_last(),
    ensures
        ({
            let end = signature_end(fun);
            let n = function_text(less).len() - end.len();
            let last = fun.parameters@.last();
            let comma = if less.parameters@.len() == 0 {
                seq![]
            } else {
                ", "@
            };
            &&& n >= 0
            &&& function_text(less).skip(n) == end
            &&& function_text(fun) == function_text(less).take(n) + comma + last.name@ + ": "@
                + last.ty@ + end
        }),
{
    reveal_strlit(") -> ");
    reveal_strlit(")");
    reveal_strlit(" -> ");
    let end = signature_end(fun);
    let last = fun.parameters@.last();
    let parts = parameter_texts(less.parameters@);
    let head = "```rust \npublic fun "@ + fun.name@ + "("@;
    let part = last.name@ + ": "@ + last.ty@;
    assert(part =~= parameter_text(last));
    law_join(parts, part, ", "@);
    assert(parameter_texts(fun.parameters@) =~= parts.push(part));
    let joined = join(parts, ", "@);
    assert(function_text(less) =~= head + joined + end);
    let n = function_text(less).len() - end.len();
    assert(function_text(less).take(n) =~= head + joined);
    assert(function_text(less).skip(n) =~= end);
    if parts.len() == 0 {
        assert(parts =~= seq![]);
        assert(parts.push(part) =~= seq![part]);
        assert(function_text(fun) =~= head + part + end);
        assert(function_text(fun) =~= head + joined + seq![] + last.name@ + ": "@ + last.ty@ + end);
    } else {
        assert(function_text(fun) =~= head + (joined + ", "@ + part) + end);
        assert(function_text(fun) =~= head + joined + ", "@ + last.name@ + ": "@ + last.ty@ + end);
    }
}

/// A struct without fields is shown as one that has none.
pub proof fn law_struct_without_fields(stct: StructEnv)
    requires
        stct.fields@.len() == 0,
    ensures
        struct_text(stct) == "```rust \nstruct "@ + stct.name@ + " {\n    // No fields\n}\n```"@,
{
    reveal_strlit(" {\n");
    reveal_strlit("    // No fields\n");
    reveal_strlit("}\n```");
    reveal_strlit(" {\n    // No fields\n}\n```");
    assert(" {\n    // No fields\n}\n```"@ =~= " {\n"@ + "    // No fields\n"@ + "}\n```"@);
    assert(struct_text(stct) =~= "```rust \nstruct "@ + stct.name@
        + " {\n    // No fields\n}\n```"@);
}

/// A struct with one field is shown with the name and the type of the field on a line.
pub proof fn law_struct_with_a_field(stct: StructEnv)
    requires
        stct.fields@.len() == 1,
    ensures
        struct_text(stct) == "```rust \nstruct "@ + stct.name@ + " {\n    "@
            + stct.fields@[0].name@ + ": "@ + stct.fields@[0].ty@ + ",\n}\n```"@,
{
    reveal_strlit(" {\n");
    reveal_strlit("    ");
    reveal_strlit(" {\n    ");
    reveal_strlit(",\n");
    reveal_strlit("}\n```");
    reveal_strlit(",\n}\n```");
    assert(stct.fields@.drop_last() =~= seq![]);
    assert(field_lines(seq![]) =~= seq![]);
    let f = stct.fields@[0];
    assert(field_lines(stct.fields@) =~= "    "@ + f.name@ + ": "@ + f.ty@ + ",\n"@);
    assert(struct_text(stct) =~= "```rust \nstruct "@ + stct.name@ + " {\n    "@ + f.name@ + ": "@
        + f.ty@ + ",\n}\n```"@);
}

/// A further field is shown on a line of its own behind the others; nothing else changes.
pub proof fn law_struct_with_another_field(stct: StructEnv, less: StructEnv)
    requires
        stct.fields@.len() > 1,
        less.name@ == stct.name@,
        less.fields@ == stct.fields@.drop_last(),
    ensures
        ({
            let end = "}\n```"@;
            let n = struct_text(less).len() - end.len();
            let last = stct.fields@.last();
            &&& n >= 0
            &&& struct_text(less).skip(n) == end
            &&& struct_text(stct) == struct_text(less).take(n) + "    "@ + last.name@ + ": "@
                + last.ty@ + ",\n"@ + end
        }),
{
    let end = "}\n```"@;
    let last = stct.fields@.last();
    let head = "```rust \nstruct "@ + stct.name@ + " {\n"@;
    let less_lines = field_lines(less.fields@);
    assert(struct_text(less) =~= head + less_lines + end);
    let n = struct_text(less).len() - end.len();
    assert(struct_text(less).take(n) =~= head + less_lines);
    assert(struct_text(less).skip(n) =~= end);
    assert(struct_text(stct) =~= head + less_lines + "    "@ + last.name@ + ": "@ + last.ty@ + ",\n"@
        + end);
}

/// A constant is shown with its name, its type and its value.
pub proof fn law_constant_is_shown(constant: NamedConstantEnv)
    ensures
        constant_text(constant) == "```rust \nconst "@ + constant.name@ + ": "@ + constant.ty@
            + " = "@ + constant.value_debug@ + "\n```"@,
{
}

/// A module that is imported as an item is shown with its full name and how many functions, structs
/// and constants it has.
pub proof fn law_module_is_summarised(module: ModuleEnv)
    ensures
        exists|functions: Seq<char>, structs: Seq<char>, constants: Seq<char>|
            {
                &&& numeral(functions) == module.functions@.len()
                &&& numeral(structs) == module.structs@.len()
                &&& numeral(constants) == module.constants@.len()
                &&& module_summary(module) == #[trigger] ("```move \nmodule "@ + module.full_name@
                    + " {\n    // Functions: "@ + functions + "\n    // Structs: "@ + structs
                    + "\n    // Constants: "@ + constants + "\n}\n```"@)
            },
{
    let f = crate::text::decimal(module.functions@.len());
    let s = crate::text::decimal(module.structs@.len());
    let c = crate::text::decimal(module.constants@.len());
    crate::text_laws::law_decimal(module.functions@.len());
    crate::text_laws::law_decimal(module.structs@.len());
    crate::text_laws::law_decimal(module.constants@.len());
    assert(module_summary(module) == "```move \nmodule "@ + module.full_name@
        + " {\n    // Functions: "@ + f + "\n    // Structs: "@ + s + "\n    // Constants: "@ + c
        + "\n}\n```"@);
}

/// One of the two names of an item holds the name that is asked for.
pub open spec fn goes_by(name: Seq<char>, full_name: Seq<char>, item: Seq<char>) -> bool {
    contains(name, item) || contains(full_name, item)
}

/// No function of a module goes by a name.
pub open spec fn no_function(module: ModuleEnv, item: Seq<char>) -> bool {
    forall|j: int|
        0 <= j < module.functions@.len() ==> !goes_by(
            (#[trigger] module.functions@[j]).name@,
            module.functions@[j].full_name@,
            item,
        )
}

/// No struct of a module goes by a name.
pub open spec fn no_struct(module: ModuleEnv, item: Seq<char>) -> bool {
    forall|j: int|
        0 <= j < module.structs@.len() ==> !goes_by(
            (#[trigger] module.structs@[j]).name@,
            module.structs@[j].full_name@,
            item,
        )
}

/// No constant of a module goes by a name.
pub open spec fn no_constant(module: ModuleEnv, item: Seq<char>) -> bool {
    forall|j: int|
        0 <= j < module.constants@.len() ==> !goes_by(
            (#[trigger] module.constants@[j]).name@,
            module.full_name@,
            item,
        )
}

/// For the name of a function of a module, the first function that goes by that name is shown, under
/// the full name of the module.
pub proof fn law_function_is_found(module: ModuleEnv, k: int, item: Seq<char>)
    requires
        0 <= k < module.functions@.len(),
        goes_by(module.functions@[k].name@, module.functions@[k].full_name@, item),
        forall|j: int|
            0 <= j < k ==> !goes_by(
                (#[trigger] module.functions@[j]).name@,
                module.functions@[j].full_name@,
                item,
            ),
    ensures
        item_in_module(module, item) == Some(
            module.full_name@ + "\n"@ + function_text(module.functions@[k]),
        ),
        module.functions@[k].name@ == item ==> contains(
            item_in_module(module, item)->0,
            "public fun "@ + item + "("@,
        ),
{
    let p = meant_function(module, item);
    lemma_first(p, module.functions@.len());
    assert(p(k));
    let i = first(p, module.functions@.len())->0;
    if i < k {
        assert(!goes_by(module.functions@[i].name@, module.functions@[i].full_name@, item));
    }
    assert(i == k);
    if module.functions@[k].name@ == item {
        lemma_function_names_itself(module.functions@[k]);
        let text = function_text(module.functions@[k]);
        let pat = "public fun "@ + item + "("@;
        let q = choose|q: int| occurs_at(text, pat, q);
        let head = module.full_name@ + "\n"@;
        let whole = head + text;
        assert(whole.subrange(head.len() + q, head.len() + q + pat.len()) =~= text.subrange(
            q,
            q + pat.len(),
        ));
        assert(occurs_at(whole, pat, head.len() + q));
    }
}

proof fn lemma_function_names_itself(fun: FunctionEnv)
    ensures
        contains(function_text(fun), "public fun "@ + fun.name@ + "("@),
{
    reveal_strlit("```rust \npublic fun ");
    reveal_strlit("```rust \n");
    reveal_strlit("public fun ");
    assert("```rust \npublic fun "@ =~= "```rust \n"@ + "public fun "@);
    let tail = join(parameter_texts(fun.parameters@), ", "@) + ")"@ + " -> "@ + fun.result_type@
        + "\n```"@;
    law_contains_middle("```rust \n"@, "public fun "@ + fun.name@ + "("@, tail);
    assert(function_text(fun) =~= "```rust \n"@ + ("public fun "@ + fun.name@ + "("@) + tail);
}

/// For a name by which no function of a module goes, the first struct that goes by it is shown, under
/// the full name of the module.
pub proof fn law_struct_is_found(module: ModuleEnv, k: int, item: Seq<char>)
    requires
        no_function(module, item),
        0 <= k < module.structs@.len(),
        goes_by(module.structs@[k].name@, module.structs@[k].full_name@, item),
        forall|j: int|
            0 <= j < k ==> !goes_by(
                (#[trigger] module.structs@[j]).name@,
                module.structs@[j].full_name@,
                item,
            ),
    ensures
        item_in_module(module, item) == Some(
            module.full_name@ + "\n"@ + struct_text(module.structs@[k]),
        ),
{
    lemma_no_function(module, item);
    let p = meant_struct(module, item);
    lemma_first(p, module.structs@.len());
    assert(p(k));
    let i = first(p, module.structs@.len())->0;
    if i < k {
        assert(!goes_by(module.structs@[i].name@, module.structs@[i].full_name@, item));
    }
    assert(i == k);
}

/// For a name by which no function and no struct of a module goes, the first constant that goes by
/// it is shown, under the full name of the module.
pub proof fn law_constant_is_found(module: ModuleEnv, k: int, item: Seq<char>)
    requires
        no_function(module, item),
        no_struct(module, item),
        0 <= k < module.constants@.len(),
        goes_by(module.constants@[k].name@, module.full_name@, item),
        forall|j: int|
            0 <= j < k ==> !goes_by(
                (#[trigger] module.constants@[j]).name@,
                module.full_name@,
                item,
            ),
    ensures
        item_in_module(module, item) == Some(
            module.full_name@ + "\n"@ + constant_text(module.constants@[k]),
        ),
{
    lemma_no_function(module, item);
    lemma_no_struct(module, item);
    let p = meant_constant(module, item);
    lemma_first(p, module.constants@.len());
    assert(p(k));
    let i = first(p, module.constants@.len())->0;
    if i < k {
        assert(!goes_by(module.constants@[i].name@, module.full_name@, item));
    }
    assert(i == k);
}

/// For a name by which nothing in a module goes, the module itself is shown if that is its name, and
/// nothing otherwise.
pub proof fn law_module_itself_is_found(module: ModuleEnv, item: Seq<char>)
    requires
        no_function(module, item),
        no_struct(module, item),
        no_constant(module, item),
    ensures
        module.name@ == item ==> item_in_module(module, item) == Some(module_summary(module)),
        module.name@ != item ==> item_in_module(module, item) is None,
{
    lemma_no_function(module, item);
    lemma_no_struct(module, item);
    let p = meant_constant(module, item);
    lemma_first(p, module.constants@.len());
    if let Some(i) = first(p, module.constants@.len()) {
        assert(!goes_by(module.constants@[i].name@, module.full_name@, item));
    }
}

proof fn lemma_no_function(module: ModuleEnv, item: Seq<char>)
    requires
        no_function(module, item),
    ensures
        first(meant_function(module, item), module.functions@.len()) is None,
{
    let p = meant_function(module, item);
    lemma_first(p, module.functions@.len());
    if let Some(i) = first(p, module.functions@.len()) {
        assert(!goes_by(module.functions@[i].name@, module.functions@[i].full_name@, item));
    }
}

proof fn lemma_no_struct(module: ModuleEnv, item: Seq<char>)
    requires
        no_struct(module, item),
    ensures
        first(meant_struct(module, item), module.structs@.len()) is None,
{
    let p = meant_struct(module, item);
    lemma_first(p, module.structs@.len());
    if let Some(i) = first(p, module.structs@.len()) {
        assert(!goes_by(module.structs@[i].name@, module.structs@[i].full_name@, item));
    }
}

/// `path` ends with the piece `last`, behind a separator or alone.
pub open spec fn ends_with_piece(path: Seq<char>, last: Seq<char>) -> bool {
    let n = path.len() - last.len() - 2;
    &&& !contains(last, seq![':', ':'])
    &&& path == last || {
        &&& n >= 0
        &&& path.skip(n) == seq![':', ':'] + last
        &&& n > 0 ==> path[n - 1] != ':'
    }
}

/// The last piece of a path is the one with which it ends.
pub proof fn law_last_piece_ends_path(path: Seq<char>, last: Seq<char>)
    requires
        ends_with_piece(path, last),
    ensures
        last_segment(path) == last,
{
    if path == last {
        law_last_piece(seq![], last);
    } else {
        let a = path.take(path.len() - last.len() - 2);
        law_last_piece(a, last);
        assert(path =~= a + seq![':', ':'] + last) by {
            assert(path =~= a + path.skip(a.len() as int));
        }
    }
}

/// Two modules are meant by one another's names exactly if the name that is used stands in the other,
/// or both end with the same piece.
pub proof fn law_modules_match(used: Seq<char>, actual: Seq<char>, x: Seq<char>, y: Seq<char>)
    requires
        ends_with_piece(used, x),
        ends_with_piece(actual, y),
    ensures
        module_matches(used, actual) <==> contains(actual, used) || x == y,
{
    law_last_piece_ends_path(used, x);
    law_last_piece_ends_path(actual, y);
}

/// What is shown for an item is what the first module has for it that is meant and has something; if
/// there is none, that the item is unknown.
pub proof fn law_item_details(modules: Seq<ModuleEnv>, k: int, used: Seq<char>, item: Seq<char>)
    requires
        0 <= k <= modules.len(),
        forall|j: int|
            0 <= j < k ==> !module_matches(used, (#[trigger] modules[j]).full_name@)
                || item_in_module(modules[j], item) is None,
        k < modules.len() ==> module_matches(used, modules[k].full_name@) && item_in_module(
            modules[k],
            item,
        ) is Some,
    ensures
        k < modules.len() ==> item_details(modules, used, item) == item_in_module(
            modules[k],
            item,
        )->0,
        k == modules.len() ==> item_details(modules, used, item) == "**Type:** Unknown item"@,
{
    let p = module_with_item(modules, used, item);
    lemma_first(p, modules.len());
    if k < modules.len() {
        assert(p(k));
    }
    if let Some(i) = first(p, modules.len()) {
        assert(modules[i] == modules[i]);
        assert(i >= k);
    }
}

/// An item of a module that is asked for under the last piece of the module's name is the item of that
/// module, if no module before it has that piece in its name.
pub proof fn law_item_of_the_named_module(
    modules: Seq<ModuleEnv>,
    k: int,
    last: Seq<char>,
    item: Seq<char>,
)
    requires
        0 <= k < modules.len(),
        ends_with_piece(modules[k].full_name@, last),
        item_in_module(modules[k], item) is Some,
        forall|j: int| 0 <= j < k ==> !contains((#[trigger] modules[j]).full_name@, last),
    ensures
        item_details(modules, last, item) == item_in_module(modules[k], item)->0,
{
    law_last_piece(seq![], last);
    law_last_piece_ends_path(modules[k].full_name@, last);
    assert forall|j: int| 0 <= j < k implies !module_matches(
        last,
        (#[trigger] modules[j]).full_name@,
    ) by {
        lemma_last_segment(modules[j].full_name@);
    }
    law_item_details(modules, k, last, item);
}

} // verus!
