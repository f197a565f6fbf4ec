//! What is shown for an imported item.

use vstd::prelude::*;
use crate::handler::Handler;
use crate::model::FieldEnv;
use crate::model::FunctionEnv;
use crate::model::GlobalEnv;
use crate::model::ModuleEnv;
use crate::model::NamedConstantEnv;
use crate::model::Parameter;
use crate::model::StructEnv;
use crate::search::first;
use crate::search::first_from;
use crate::search::lemma_first;
use crate::text::chars_of;
use crate::text::contains;
use crate::text::contains_text;
use crate::text::decimal;
use crate::text::decimal_text;
use crate::text::find;
use crate::text::join;
use crate::text::join_strings;
use crate::text::last_segment;
use crate::text::last_segment_of;
use crate::text::lemma_find;
use crate::text::occurs_at;
use crate::text::same_text;
use crate::text::segments;
use crate::text::str_contains;
use crate::text::texts;

verus! {

/// The module named `actual` is meant by a `use` of `used`.
pub open spec fn module_matches(used: Seq<char>, actual: Seq<char>) -> bool {
    contains(actual, used) || last_segment(used) == last_segment(actual)
}

/// An item with the given names is meant by `item`.
pub open spec fn names_item(name: Seq<char>, full_name: Seq<char>, item: Seq<char>) -> bool {
    contains(name, item) || contains(full_name, item)
}

/// A parameter as it is shown.
pub open spec fn parameter_text(parameter: Parameter) -> Seq<char> {
    parameter.name@ + ": "@ + parameter.ty@
}

/// The parameters as they are shown.
pub open spec fn parameter_texts(parameters: Seq<Parameter>) -> Seq<Seq<char>> {
    Seq::new(parameters.len(), |i: int| parameter_text(parameters[i]))
}

/// A function as it is shown.
pub open spec fn function_text(fun: FunctionEnv) -> Seq<char> {
    "```rust \npublic fun "@ + fun.name@ + "("@ + join(
        parameter_texts(fun.parameters@),
        ", "@,
    ) + ")"@ + " -> "@ + fun.result_type@ + "\n```"@
}

/// The fields of a struct as they are shown, each on a line.
pub open spec fn field_lines(fields: Seq<FieldEnv>) -> Seq<char>
    decreases fields.len(),
{
    if fields.len() == 0 {
        seq![]
    } else {
        field_lines(fields.drop_last()) + "    "@ + fields.last().name@ + ": "@ + fields.last().ty@
            + ",\n"@
    }
}

/// A struct as it is shown.
pub open spec fn struct_text(stct: StructEnv) -> Seq<char> {
    "```rust \nstruct "@ + stct.name@ + " {\n"@ + (if stct.fields@.len() == 0 {
        "    // No fields\n"@
    } else {
        field_lines(stct.fields@)
    }) + "}\n```"@
}

/// A constant as it is shown.
pub open spec fn constant_text(constant: NamedConstantEnv) -> Seq<char> {
    "```rust \nconst "@ + constant.name@ + ": "@ + constant.ty@ + " = "@ + constant.value_debug@
        + "\n```"@
}

/// A module as it is shown where it is imported as an item.
pub open spec fn module_summary(module: ModuleEnv) -> Seq<char> {
    "```move \nmodule "@ + module.full_name@ + " {\n    // Functions: "@ + decimal(
        module.functions@.len(),
    ) + "\n    // Structs: "@ + decimal(module.structs@.len()) + "\n    // Constants: "@ + decimal(
        module.constants@.len(),
    ) + "\n}\n```"@
}

/// The functions that are meant by `item`.
pub open spec fn meant_function(module: ModuleEnv, item: Seq<char>) -> spec_fn(int) -> bool {
    |i: int| names_item(module.functions@[i].name@, module.functions@[i].full_name@, item)
}

/// The structs that are meant by `item`.
pub open spec fn meant_struct(module: ModuleEnv, item: Seq<char>) -> spec_fn(int) -> bool {
    |i: int| names_item(module.structs@[i].name@, module.structs@[i].full_name@, item)
}

/// The constants that are meant by `item`.
pub open spec fn meant_constant(module: ModuleEnv, item: Seq<char>) -> spec_fn(int) -> bool {
    |i: int| names_item(module.constants@[i].name@, module.full_name@, item)
}

/// What is shown for an item of a module: the first function, or else struct, or else constant
/// that is meant, or else the module itself if it has that name.
pub open spec fn item_in_module(module: ModuleEnv, item: Seq<char>) -> Option<Seq<char>> {
    if let Some(i) = first(meant_function(module, item), module.functions@.len()) {
        Some(module.full_name@ + "\n"@ + function_text(module.functions@[i]))
    } else if let Some(i) = first(meant_struct(module, item), module.structs@.len()) {
        Some(module.full_name@ + "\n"@ + struct_text(module.structs@[i]))
    } else if let Some(i) = first(meant_constant(module, item), module.constants@.len()) {
        Some(module.full_name@ + "\n"@ + constant_text(module.constants@[i]))
    } else if module.name@ == item {
        Some(module_summary(module))
    } else {
        None
    }
}

/// The modules that are meant by `module_name` and have something to show for `item`.
pub open spec fn module_with_item(
    modules: Seq<ModuleEnv>,
    module_name: Seq<char>,
    item: Seq<char>,
) -> spec_fn(int) -> bool {
    |i: int|
        module_matches(module_name, modules[i].full_name@) && item_in_module(modules[i], item)
            is Some
}

/// What is shown for an item that is imported from a module.
pub open spec fn item_details(
    modules: Seq<ModuleEnv>,
    module_name: Seq<char>,
    item: Seq<char>,
) -> Seq<char> {
    match first(module_with_item(modules, module_name, item), modules.len()) {
        Some(i) => item_in_module(modules[i], item)->0,
        None => "**Type:** Unknown item"@,
    }
}

/// The last piece of a path stands in the path.
pub proof fn lemma_last_segment(s: Seq<char>)
    ensures
        contains(s, last_segment(s)),
    decreases s.len(),
{
    lemma_find(s, seq![':', ':']);
    match find(s, seq![':', ':']) {
        Some(p) => {
            let rest = s.skip(p + 2);
            lemma_last_segment(rest);
            let last = last_segment(rest);
            let k = choose|k: int| occurs_at(rest, last, k);
            assert(segments(s) =~= seq![s.take(p)] + segments(rest));
            assert(segments(s).last() == segments(rest).last());
            assert(s.subrange(k + p + 2, k + p + 2 + last.len()) =~= rest.subrange(
                k,
                k + last.len(),
            ));
            assert(occurs_at(s, last, k + p + 2));
        },
        None => {
            assert(s.subrange(0, s.len() as int) =~= s);
            assert(occurs_at(s, s, 0));
        },
    }
}

/// A module is meant by its own name.
pub proof fn law_module_matches_full_name(name: Seq<char>)
    ensures
        module_matches(name, name),
{
}

/// A module is meant by the last piece of its name, as by any other part of it.
pub proof fn law_module_matches_short_name(name: Seq<char>)
    ensures
        module_matches(last_segment(name), name),
{
    lemma_last_segment(name);
}

/// A text stands in itself.
proof fn lemma_contains_self(s: Seq<char>)
    ensures
        contains(s, s),
{
    assert(s.subrange(0, s.len() as int) =~= s);
    assert(occurs_at(s, s, 0));
}

/// The last piece of the name of a module, and the name of one of its functions, structs or
/// constants, or of the module itself, name something: what is shown is taken from the first module
/// that has something to show for them, which is this one or one before it.
pub proof fn law_own_items_are_known(modules: Seq<ModuleEnv>, i: int, item: Seq<char>)
    requires
        0 <= i < modules.len(),
        ({
            let module = modules[i];
            ||| exists|k: int| 0 <= k < module.functions@.len() && module.functions@[k].name@ == item
            ||| exists|k: int| 0 <= k < module.structs@.len() && module.structs@[k].name@ == item
            ||| exists|k: int| 0 <= k < module.constants@.len() && module.constants@[k].name@ == item
            ||| module.name@ == item
        }),
    ensures
        ({
            let used = last_segment(modules[i].full_name@);
            &&& first(module_with_item(modules, used, item), modules.len()) matches Some(j)
            &&& 0 <= j <= i
            &&& item_in_module(modules[j], item) == Some(item_details(modules, used, item))
        }),
{
    let module = modules[i];
    let used = last_segment(module.full_name@);
    law_module_matches_short_name(module.full_name@);
    lemma_contains_self(item);
    let p = meant_function(module, item);
    let q = meant_struct(module, item);
    let r = meant_constant(module, item);
    lemma_first(p, module.functions@.len());
    lemma_first(q, module.structs@.len());
    lemma_first(r, module.constants@.len());
    if exists|k: int| 0 <= k < module.functions@.len() && module.functions@[k].name@ == item {
        let k = choose|k: int|
            0 <= k < module.functions@.len() && module.functions@[k].name@ == item;
        assert(p(k));
    } else if exists|k: int| 0 <= k < module.structs@.len() && module.structs@[k].name@ == item {
        let k = choose|k: int| 0 <= k < module.structs@.len() && module.structs@[k].name@ == item;
        assert(q(k));
    } else if exists|k: int|
        0 <= k < module.constants@.len() && module.constants@[k].name@ == item {
        let k = choose|k: int|
            0 <= k < module.constants@.len() && module.constants@[k].name@ == item;
        assert(r(k));
    }
    let w = module_with_item(modules, used, item);
    assert(w(i));
    lemma_first(w, modules.len());
}

impl Handler {
    /// Decides whether a module is meant by the name in a `use` declaration.
    pub fn module_names_match(&self, use_module_name: &str, actual_module_name: &str) -> (r: bool)
        ensures
            r == module_matches(use_module_name@, actual_module_name@),
    {
        let used = chars_of(use_module_name);
        let actual = chars_of(actual_module_name);
        contains_text(actual.as_slice(), used.as_slice()) || same_text(
            last_segment_of(used.as_slice()),
            last_segment_of(actual.as_slice()),
        )
    }

    /// Formats a function.
    pub fn format_function_signature(&self, func: &FunctionEnv) -> (r: String)
        ensures
            r@ == function_text(*func),
    {
        let mut params: Vec<String> = Vec::new();
        for i in 0..func.parameters.len()
            invariant
                texts(params@) =~= parameter_texts(func.parameters@).take(i as int),
        {
            let mut param = func.parameters[i].name.clone();
            param.append(": ");
            param.append(func.parameters[i].ty.as_str());
            assert(param@ =~= parameter_text(func.parameters@[i as int]));
            let ghost before = params@;
            params.push(param);
            assert(texts(params@) =~= texts(before).push(param@));
        }
        assert(texts(params@) =~= parameter_texts(func.parameters@));
        let mut signature = "```rust \npublic fun ".to_string();
        signature.append(func.name.as_str());
        signature.append("(");
        signature.append(join_strings(&params, ", ").as_str());
        signature.append(")");
        signature.append(" -> ");
        signature.append(func.result_type.as_str());
        signature.append("\n```");
        signature
    }

    /// Formats a struct.
    pub fn format_struct_definition(&self, stct: &StructEnv) -> (r: String)
        ensures
            r@ == struct_text(*stct),
    {
        let mut definition = "```rust \nstruct ".to_string();
        definition.append(stct.name.as_str());
        definition.append(" {\n");
        let ghost head = definition@;
        if stct.fields.len() == 0 {
            definition.append("    // No fields\n");
        } else {
            assert(head + field_lines(stct.fields@.take(0)) =~= head);
            for i in 0..stct.fields.len()
                invariant
                    definition@ == head + field_lines(stct.fields@.take(i as int)),
            {
                let field = &stct.fields[i];
                definition.append("    ");
                definition.append(field.name.as_str());
                definition.append(": ");
                definition.append(field.ty.as_str());
                definition.append(",\n");
                proof {
                    let so_far = stct.fields@.take(i + 1);
                    assert(so_far.drop_last() =~= stct.fields@.take(i as int));
                    assert(definition@ =~= head + field_lines(so_far));
                }
            }
            assert(stct.fields@.take(stct.fields@.len() as int) =~= stct.fields@);
        }
        definition.append("}\n```");
        definition
    }

    /// Formats a constant.
    pub fn format_constant_definition(&self, const_env: &NamedConstantEnv) -> (r: String)
        ensures
            r@ == constant_text(*const_env),
    {
        let mut definition = "```rust \nconst ".to_string();
        definition.append(const_env.name.as_str());
        definition.append(": ");
        definition.append(const_env.ty.as_str());
        definition.append(" = ");
        definition.append(const_env.value_debug.as_str());
        definition.append("\n```");
        definition
    }

    /// Formats a module that is imported as an item.
    fn format_module_summary(&self, module: &ModuleEnv) -> (r: String)
        ensures
            r@ == module_summary(*module),
    {
        let mut summary = "```move \nmodule ".to_string();
        summary.append(module.full_name.as_str());
        summary.append(" {\n    // Functions: ");
        summary.append(decimal_text(module.functions.len() as u64).as_str());
        summary.append("\n    // Structs: ");
        summary.append(decimal_text(module.structs.len() as u64).as_str());
        summary.append("\n    // Constants: ");
        summary.append(decimal_text(module.constants.len() as u64).as_str());
        summary.append("\n}\n```");
        summary
    }

    /// What is shown for an item of a module.
    fn get_item_in_module(&self, module: &ModuleEnv, item_name: &str) -> (r: Option<String>)
        ensures
            match r {
                Some(s) => item_in_module(*module, item_name@) == Some(s@),
                None => item_in_module(*module, item_name@) is None,
            },
    {
        let mut result = module.full_name.clone();
        result.append("\n");
        for i in 0..module.functions.len()
            invariant
                result@ == module.full_name@ + "\n"@,
                first(meant_function(*module, item_name@), module.functions@.len()) == first_from(
                    meant_function(*module, item_name@),
                    i as int,
                    module.functions@.len() as int,
                ),
        {
            let func = &module.functions[i];
            if str_contains(func.name.as_str(), item_name) || str_contains(
                func.full_name.as_str(),
                item_name,
            ) {
                result.append(self.format_function_signature(func).as_str());
                return Some(result);
            }
        }
        for i in 0..module.structs.len()
            invariant
                result@ == module.full_name@ + "\n"@,
                first(meant_function(*module, item_name@), module.functions@.len()) is None,
                first(meant_struct(*module, item_name@), module.structs@.len()) == first_from(
                    meant_struct(*module, item_name@),
                    i as int,
                    module.structs@.len() as int,
                ),
        {
            let stct = &module.structs[i];
            if str_contains(stct.name.as_str(), item_name) || str_contains(
                stct.full_name.as_str(),
                item_name,
            ) {
                result.append(self.format_struct_definition(stct).as_str());
                return Some(result);
            }
        }
        for i in 0..module.constants.len()
            invariant
                result@ == module.full_name@ + "\n"@,
                first(meant_function(*module, item_name@), module.functions@.len()) is None,
                first(meant_struct(*module, item_name@), module.structs@.len()) is None,
                first(meant_constant(*module, item_name@), module.constants@.len()) == first_from(
                    meant_constant(*module, item_name@),
                    i as int,
                    module.constants@.len() as int,
                ),
        {
            let constant = &module.constants[i];
            if str_contains(constant.name.as_str(), item_name) || str_contains(
                module.full_name.as_str(),
                item_name,
            ) {
                result.append(self.format_constant_definition(constant).as_str());
                return Some(result);
            }
        }
        let name = chars_of(module.name.as_str());
        let item = chars_of(item_name);
        if same_text(name.as_slice(), item.as_slice()) {
            Some(self.format_module_summary(module))
        } else {
            None
        }
    }

    /// What is shown for an item that is imported from a module.
    pub fn get_item_details(&self, env: &GlobalEnv, module_name: &str, item_name: &str) -> (r:
        String)
        ensures
            r@ == item_details(env.modules@, module_name@, item_name@),
    {
        let ghost p = module_with_item(env.modules@, module_name@, item_name@);
        for i in 0..env.modules.len()
            invariant
                p == module_with_item(env.modules@, module_name@, item_name@),
                first(p, env.modules@.len()) == first_from(p, i as int, env.modules@.len() as int),
        {
            let module = &env.modules[i];
            if self.module_names_match(module_name, module.full_name.as_str()) {
                if let Some(details) = self.get_item_in_module(module, item_name) {
                    return details;
                }
            }
        }
        "**Type:** Unknown item".to_string()
    }
}

} // verus!
