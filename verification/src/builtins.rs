//! The names GN itself defines: target types, functions, and variables, with
//! a line of help for each, and the names of the functions the analysis
//! treats specially.

use vstd::prelude::*;

use crate::storage::bytes_eq;

verus! {

/// A name that GN defines, with its help text.
pub struct BuiltinSymbol {
    pub name: &'static str,
    pub doc: &'static str,
}

/// The names that GN defines, by kind.
pub struct BuiltinSymbols {
    pub targets: Vec<BuiltinSymbol>,
    pub functions: Vec<BuiltinSymbol>,
    pub predefined_variables: Vec<BuiltinSymbol>,
    pub target_variables: Vec<BuiltinSymbol>,
}

impl BuiltinSymbols {
    /// Every symbol: target types, functions, predefined variables, then
    /// target variables.
    pub open spec fn spec_all(&self) -> Seq<BuiltinSymbol> {
        self.targets@ + self.functions@ + self.predefined_variables@ + self.target_variables@
    }

    pub fn all(&self) -> (r: Vec<&BuiltinSymbol>)
        ensures
            crate::ast::derefs(r@) == self.spec_all(),
    {
        let mut r: Vec<&BuiltinSymbol> = Vec::new();
        let ghost mut acc: Seq<BuiltinSymbol> = Seq::empty();
        let ghost base = acc;
        let mut i: usize = 0;
        while i < self.targets.len()
            invariant
                i <= self.targets@.len(),
                crate::ast::derefs(r@) == base + self.targets@.take(i as int),
            decreases self.targets@.len() - i,
        {
            let ghost old_r = r@;
            r.push(&self.targets[i]);
            proof {
                assert(self.targets@.take(i + 1) =~= self.targets@.take(i as int).push(self.targets@[i as int]));
                assert(crate::ast::derefs(r@) =~= crate::ast::derefs(old_r).push(self.targets@[i as int]));
                assert(crate::ast::derefs(r@) =~= base + self.targets@.take(i + 1));
            }
            i += 1;
        }
        assert(self.targets@.take(self.targets@.len() as int) =~= self.targets@);
        proof {
            acc = base + self.targets@;
        }
        let ghost base = acc;
        let mut i: usize = 0;
        while i < self.functions.len()
            invariant
                i <= self.functions@.len(),
                crate::ast::derefs(r@) == base + self.functions@.take(i as int),
            decreases self.functions@.len() - i,
        {
            let ghost old_r = r@;
            r.push(&self.functions[i]);
            proof {
                assert(self.functions@.take(i + 1) =~= self.functions@.take(i as int).push(self.functions@[i as int]));
                assert(crate::ast::derefs(r@) =~= crate::ast::derefs(old_r).push(self.functions@[i as int]));
                assert(crate::ast::derefs(r@) =~= base + self.functions@.take(i + 1));
            }
            i += 1;
        }
        assert(self.functions@.take(self.functions@.len() as int) =~= self.functions@);
        proof {
            acc = base + self.functions@;
        }
        let ghost base = acc;
        let mut i: usize = 0;
        while i < self.predefined_variables.len()
            invariant
                i <= self.predefined_variables@.len(),
                crate::ast::derefs(r@) == base + self.predefined_variables@.take(i as int),
            decreases self.predefined_variables@.len() - i,
        {
            let ghost old_r = r@;
            r.push(&self.predefined_variables[i]);
            proof {
                assert(self.predefined_variables@.take(i + 1) =~= self.predefined_variables@.take(i as int).push(self.predefined_variables@[i as int]));
                assert(crate::ast::derefs(r@) =~= crate::ast::derefs(old_r).push(self.predefined_variables@[i as int]));
                assert(crate::ast::derefs(r@) =~= base + self.predefined_variables@.take(i + 1));
            }
            i += 1;
        }
        assert(self.predefined_variables@.take(self.predefined_variables@.len() as int) =~= self.predefined_variables@);
        proof {
            acc = base + self.predefined_variables@;
        }
        let ghost base = acc;
        let mut i: usize = 0;
        while i < self.target_variables.len()
            invariant
                i <= self.target_variables@.len(),
                crate::ast::derefs(r@) == base + self.target_variables@.take(i as int),
            decreases self.target_variables@.len() - i,
        {
            let ghost old_r = r@;
            r.push(&self.target_variables[i]);
            proof {
                assert(self.target_variables@.take(i + 1) =~= self.target_variables@.take(i as int).push(self.target_variables@[i as int]));
                assert(crate::ast::derefs(r@) =~= crate::ast::derefs(old_r).push(self.target_variables@[i as int]));
                assert(crate::ast::derefs(r@) =~= base + self.target_variables@.take(i + 1));
            }
            i += 1;
        }
        assert(self.target_variables@.take(self.target_variables@.len() as int) =~= self.target_variables@);
        proof {
            acc = base + self.target_variables@;
        }
        r
    }
}

fn builtin_targets() -> (r: Vec<BuiltinSymbol>)
    ensures
        r@.len() == 15,
{
    let mut r: Vec<BuiltinSymbol> = Vec::new();
    r.push(BuiltinSymbol { name: "action", doc: "Declare a target that runs a script a single time." });
    r.push(BuiltinSymbol { name: "action_foreach", doc: "Declare a target that runs a script over a set of files." });
    r.push(BuiltinSymbol { name: "bundle_data", doc: "[iOS/macOS] Declare a target without output." });
    r.push(BuiltinSymbol { name: "copy", doc: "Declare a target that copies files." });
    r.push(BuiltinSymbol { name: "create_bundle", doc: "[iOS/macOS] Build an iOS or macOS bundle." });
    r.push(BuiltinSymbol { name: "executable", doc: "Declare an executable target." });
    r.push(BuiltinSymbol { name: "generated_file", doc: "Declare a generated_file target." });
    r.push(BuiltinSymbol { name: "group", doc: "Declare a named group of targets." });
    r.push(BuiltinSymbol { name: "loadable_module", doc: "Declare a loadable module target." });
    r.push(BuiltinSymbol { name: "rust_library", doc: "Declare a Rust library target." });
    r.push(BuiltinSymbol { name: "rust_proc_macro", doc: "Declare a Rust procedural macro target." });
    r.push(BuiltinSymbol { name: "shared_library", doc: "Declare a shared library target." });
    r.push(BuiltinSymbol { name: "source_set", doc: "Declare a source set target." });
    r.push(BuiltinSymbol { name: "static_library", doc: "Declare a static library target." });
    r.push(BuiltinSymbol { name: "target", doc: "Declare a target with the given programmatic type." });
    r
}

fn builtin_functions() -> (r: Vec<BuiltinSymbol>)
    ensures
        r@.len() == 34,
{
    let mut r: Vec<BuiltinSymbol> = Vec::new();
    r.push(BuiltinSymbol { name: "assert", doc: "Assert an expression is true at generation time." });
    r.push(BuiltinSymbol { name: "config", doc: "Defines a configuration object." });
    r.push(BuiltinSymbol { name: "declare_args", doc: "Declare build arguments." });
    r.push(BuiltinSymbol { name: "defined", doc: "Returns whether an identifier is defined." });
    r.push(BuiltinSymbol { name: "exec_script", doc: "Synchronously run a script and return the output." });
    r.push(BuiltinSymbol { name: "filter_exclude", doc: "Remove values that match a set of patterns." });
    r.push(BuiltinSymbol { name: "filter_include", doc: "Remove values that do not match a set of patterns." });
    r.push(BuiltinSymbol { name: "filter_labels_exclude", doc: "Remove labels that match a set of patterns." });
    r.push(BuiltinSymbol { name: "filter_labels_include", doc: "Remove labels that do not match a set of patterns." });
    r.push(BuiltinSymbol { name: "foreach", doc: "Iterate over a list." });
    r.push(BuiltinSymbol { name: "forward_variables_from", doc: "Copies variables from a different scope." });
    r.push(BuiltinSymbol { name: "get_label_info", doc: "Get an attribute from a target's label." });
    r.push(BuiltinSymbol { name: "get_path_info", doc: "Extract parts of a file or directory name." });
    r.push(BuiltinSymbol { name: "get_target_outputs", doc: "[file list] Get the list of outputs from a target." });
    r.push(BuiltinSymbol { name: "getenv", doc: "Get an environment variable." });
    r.push(BuiltinSymbol { name: "import", doc: "Import a file into the current scope." });
    r.push(BuiltinSymbol { name: "label_matches", doc: "Returns true if the label matches any of a set of patterns." });
    r.push(BuiltinSymbol { name: "not_needed", doc: "Mark variables from scope as not needed." });
    r.push(BuiltinSymbol { name: "pool", doc: "Defines a pool object." });
    r.push(BuiltinSymbol { name: "print", doc: "Prints to the console." });
    r.push(BuiltinSymbol { name: "print_stack_trace", doc: "Prints a stack trace." });
    r.push(BuiltinSymbol { name: "process_file_template", doc: "Do template expansion over a list of files." });
    r.push(BuiltinSymbol { name: "read_file", doc: "Read a file into a variable." });
    r.push(BuiltinSymbol { name: "rebase_path", doc: "Rebase a file or directory to another location." });
    r.push(BuiltinSymbol { name: "set_default_toolchain", doc: "Sets the default toolchain name." });
    r.push(BuiltinSymbol { name: "set_defaults", doc: "Set default values for a target type." });
    r.push(BuiltinSymbol { name: "split_list", doc: "Divides one list into several." });
    r.push(BuiltinSymbol { name: "string_join", doc: "Concatenates a list of strings with a separator." });
    r.push(BuiltinSymbol { name: "string_replace", doc: "Replaces substring in the given string." });
    r.push(BuiltinSymbol { name: "string_split", doc: "Split string into a list of strings." });
    r.push(BuiltinSymbol { name: "template", doc: "Define a template rule." });
    r.push(BuiltinSymbol { name: "tool", doc: "Specify arguments to a toolchain tool." });
    r.push(BuiltinSymbol { name: "toolchain", doc: "Defines a toolchain." });
    r.push(BuiltinSymbol { name: "write_file", doc: "Write a file to disk." });
    r
}

fn builtin_predefined_variables() -> (r: Vec<BuiltinSymbol>)
    ensures
        r@.len() == 17,
{
    let mut r: Vec<BuiltinSymbol> = Vec::new();
    r.push(BuiltinSymbol { name: "current_cpu", doc: "The processor architecture of the current toolchain." });
    r.push(BuiltinSymbol { name: "current_os", doc: "The operating system of the current toolchain." });
    r.push(BuiltinSymbol { name: "current_toolchain", doc: "Label of the current toolchain." });
    r.push(BuiltinSymbol { name: "default_toolchain", doc: "Label of the default toolchain." });
    r.push(BuiltinSymbol { name: "gn_version", doc: "The version of gn." });
    r.push(BuiltinSymbol { name: "host_cpu", doc: "The processor architecture that GN is running on." });
    r.push(BuiltinSymbol { name: "host_os", doc: "The operating system that GN is running on." });
    r.push(BuiltinSymbol { name: "invoker", doc: "The invoking scope inside a template." });
    r.push(BuiltinSymbol { name: "python_path", doc: "Absolute path of Python." });
    r.push(BuiltinSymbol { name: "root_build_dir", doc: "Directory where build commands are run." });
    r.push(BuiltinSymbol { name: "root_gen_dir", doc: "Directory for the toolchain's generated files." });
    r.push(BuiltinSymbol { name: "root_out_dir", doc: "Root directory for toolchain output files." });
    r.push(BuiltinSymbol { name: "target_cpu", doc: "The desired cpu architecture for the build." });
    r.push(BuiltinSymbol { name: "target_gen_dir", doc: "Directory for a target's generated files." });
    r.push(BuiltinSymbol { name: "target_name", doc: "The name of the current target." });
    r.push(BuiltinSymbol { name: "target_os", doc: "The desired operating system for the build." });
    r.push(BuiltinSymbol { name: "target_out_dir", doc: "Directory for target output files." });
    r
}

fn builtin_target_variables() -> (r: Vec<BuiltinSymbol>)
    ensures
        r@.len() == 82,
{
    let mut r: Vec<BuiltinSymbol> = Vec::new();
    r.push(BuiltinSymbol { name: "aliased_deps", doc: "" });
    r.push(BuiltinSymbol { name: "all_dependent_configs", doc: "" });
    r.push(BuiltinSymbol { name: "allow_circular_includes_from", doc: "" });
    r.push(BuiltinSymbol { name: "arflags", doc: "" });
    r.push(BuiltinSymbol { name: "args", doc: "" });
    r.push(BuiltinSymbol { name: "asmflags", doc: "" });
    r.push(BuiltinSymbol { name: "assert_no_deps", doc: "" });
    r.push(BuiltinSymbol { name: "bridge_header", doc: "" });
    r.push(BuiltinSymbol { name: "bundle_contents_dir", doc: "" });
    r.push(BuiltinSymbol { name: "bundle_deps_filter", doc: "" });
    r.push(BuiltinSymbol { name: "bundle_executable_dir", doc: "" });
    r.push(BuiltinSymbol { name: "bundle_resources_dir", doc: "" });
    r.push(BuiltinSymbol { name: "bundle_root_dir", doc: "" });
    r.push(BuiltinSymbol { name: "cflags", doc: "" });
    r.push(BuiltinSymbol { name: "cflags_c", doc: "" });
    r.push(BuiltinSymbol { name: "cflags_cc", doc: "" });
    r.push(BuiltinSymbol { name: "cflags_objc", doc: "" });
    r.push(BuiltinSymbol { name: "cflags_objcc", doc: "" });
    r.push(BuiltinSymbol { name: "check_includes", doc: "" });
    r.push(BuiltinSymbol { name: "code_signing_args", doc: "" });
    r.push(BuiltinSymbol { name: "code_signing_outputs", doc: "" });
    r.push(BuiltinSymbol { name: "code_signing_script", doc: "" });
    r.push(BuiltinSymbol { name: "code_signing_sources", doc: "" });
    r.push(BuiltinSymbol { name: "complete_static_lib", doc: "" });
    r.push(BuiltinSymbol { name: "configs", doc: "" });
    r.push(BuiltinSymbol { name: "contents", doc: "" });
    r.push(BuiltinSymbol { name: "crate_name", doc: "" });
    r.push(BuiltinSymbol { name: "crate_root", doc: "" });
    r.push(BuiltinSymbol { name: "crate_type", doc: "" });
    r.push(BuiltinSymbol { name: "data", doc: "" });
    r.push(BuiltinSymbol { name: "data_deps", doc: "" });
    r.push(BuiltinSymbol { name: "data_keys", doc: "" });
    r.push(BuiltinSymbol { name: "defines", doc: "" });
    r.push(BuiltinSymbol { name: "depfile", doc: "" });
    r.push(BuiltinSymbol { name: "deps", doc: "" });
    r.push(BuiltinSymbol { name: "externs", doc: "" });
    r.push(BuiltinSymbol { name: "framework_dirs", doc: "" });
    r.push(BuiltinSymbol { name: "frameworks", doc: "" });
    r.push(BuiltinSymbol { name: "friend", doc: "" });
    r.push(BuiltinSymbol { name: "gen_deps", doc: "" });
    r.push(BuiltinSymbol { name: "include_dirs", doc: "" });
    r.push(BuiltinSymbol { name: "inputs", doc: "" });
    r.push(BuiltinSymbol { name: "ldflags", doc: "" });
    r.push(BuiltinSymbol { name: "lib_dirs", doc: "" });
    r.push(BuiltinSymbol { name: "libs", doc: "" });
    r.push(BuiltinSymbol { name: "metadata", doc: "" });
    r.push(BuiltinSymbol { name: "mnemonic", doc: "" });
    r.push(BuiltinSymbol { name: "module_name", doc: "" });
    r.push(BuiltinSymbol { name: "output_conversion", doc: "" });
    r.push(BuiltinSymbol { name: "output_dir", doc: "" });
    r.push(BuiltinSymbol { name: "output_extension", doc: "" });
    r.push(BuiltinSymbol { name: "output_name", doc: "" });
    r.push(BuiltinSymbol { name: "output_prefix_override", doc: "" });
    r.push(BuiltinSymbol { name: "outputs", doc: "" });
    r.push(BuiltinSymbol { name: "partial_info_plist", doc: "" });
    r.push(BuiltinSymbol { name: "pool", doc: "" });
    r.push(BuiltinSymbol { name: "post_processing_args", doc: "" });
    r.push(BuiltinSymbol { name: "post_processing_outputs", doc: "" });
    r.push(BuiltinSymbol { name: "post_processing_script", doc: "" });
    r.push(BuiltinSymbol { name: "post_processing_sources", doc: "" });
    r.push(BuiltinSymbol { name: "precompiled_header", doc: "" });
    r.push(BuiltinSymbol { name: "precompiled_header_type", doc: "" });
    r.push(BuiltinSymbol { name: "precompiled_source", doc: "" });
    r.push(BuiltinSymbol { name: "product_type", doc: "" });
    r.push(BuiltinSymbol { name: "public", doc: "" });
    r.push(BuiltinSymbol { name: "public_configs", doc: "" });
    r.push(BuiltinSymbol { name: "public_deps", doc: "" });
    r.push(BuiltinSymbol { name: "rebase", doc: "" });
    r.push(BuiltinSymbol { name: "response_file_contents", doc: "" });
    r.push(BuiltinSymbol { name: "rustflags", doc: "" });
    r.push(BuiltinSymbol { name: "script", doc: "" });
    r.push(BuiltinSymbol { name: "sources", doc: "" });
    r.push(BuiltinSymbol { name: "swiftflags", doc: "" });
    r.push(BuiltinSymbol { name: "testonly", doc: "" });
    r.push(BuiltinSymbol { name: "transparent", doc: "" });
    r.push(BuiltinSymbol { name: "visibility", doc: "" });
    r.push(BuiltinSymbol { name: "walk_keys", doc: "" });
    r.push(BuiltinSymbol { name: "weak_frameworks", doc: "" });
    r.push(BuiltinSymbol { name: "write_runtime_deps", doc: "" });
    r.push(BuiltinSymbol { name: "xcasset_compiler_flags", doc: "" });
    r.push(BuiltinSymbol { name: "xcode_extra_attributes", doc: "" });
    r.push(BuiltinSymbol { name: "xcode_test_application_name", doc: "" });
    r
}

/// The table of names GN defines.
pub fn builtins() -> (r: BuiltinSymbols)
    ensures
        r.targets@.len() == 15,
        r.functions@.len() == 34,
        r.predefined_variables@.len() == 17,
        r.target_variables@.len() == 82,
{
    BuiltinSymbols {
        targets: builtin_targets(),
        functions: builtin_functions(),
        predefined_variables: builtin_predefined_variables(),
        target_variables: builtin_target_variables(),
    }
}

/// `import`
pub open spec fn import_name() -> Seq<u8> {
    seq![105u8, 109u8, 112u8, 111u8, 114u8, 116u8]
}

pub fn is_import(name: &[u8]) -> (r: bool)
    ensures
        r == (name@ == import_name()),
{
    let k: &[u8] = &[105u8, 109u8, 112u8, 111u8, 114u8, 116u8];
    assert(k@ =~= import_name());
    bytes_eq(name, k)
}

/// `template`
pub open spec fn template_name() -> Seq<u8> {
    seq![116u8, 101u8, 109u8, 112u8, 108u8, 97u8, 116u8, 101u8]
}

pub fn is_template(name: &[u8]) -> (r: bool)
    ensures
        r == (name@ == template_name()),
{
    let k: &[u8] = &[116u8, 101u8, 109u8, 112u8, 108u8, 97u8, 116u8, 101u8];
    assert(k@ =~= template_name());
    bytes_eq(name, k)
}

/// `declare_args`
pub open spec fn declare_args_name() -> Seq<u8> {
    seq![100u8, 101u8, 99u8, 108u8, 97u8, 114u8, 101u8, 95u8, 97u8, 114u8, 103u8, 115u8]
}

pub fn is_declare_args(name: &[u8]) -> (r: bool)
    ensures
        r == (name@ == declare_args_name()),
{
    let k: &[u8] = &[100u8, 101u8, 99u8, 108u8, 97u8, 114u8, 101u8, 95u8, 97u8, 114u8, 103u8, 115u8];
    assert(k@ =~= declare_args_name());
    bytes_eq(name, k)
}

/// `foreach`
pub open spec fn foreach_name() -> Seq<u8> {
    seq![102u8, 111u8, 114u8, 101u8, 97u8, 99u8, 104u8]
}

pub fn is_foreach(name: &[u8]) -> (r: bool)
    ensures
        r == (name@ == foreach_name()),
{
    let k: &[u8] = &[102u8, 111u8, 114u8, 101u8, 97u8, 99u8, 104u8];
    assert(k@ =~= foreach_name());
    bytes_eq(name, k)
}

/// `set_defaults`
pub open spec fn set_defaults_name() -> Seq<u8> {
    seq![115u8, 101u8, 116u8, 95u8, 100u8, 101u8, 102u8, 97u8, 117u8, 108u8, 116u8, 115u8]
}

pub fn is_set_defaults(name: &[u8]) -> (r: bool)
    ensures
        r == (name@ == set_defaults_name()),
{
    let k: &[u8] = &[115u8, 101u8, 116u8, 95u8, 100u8, 101u8, 102u8, 97u8, 117u8, 108u8, 116u8, 115u8];
    assert(k@ =~= set_defaults_name());
    bytes_eq(name, k)
}

/// `forward_variables_from`
pub open spec fn forward_variables_from_name() -> Seq<u8> {
    seq![102u8, 111u8, 114u8, 119u8, 97u8, 114u8, 100u8, 95u8, 118u8, 97u8, 114u8, 105u8, 97u8, 98u8, 108u8, 101u8, 115u8, 95u8, 102u8, 114u8, 111u8, 109u8]
}

pub fn is_forward_variables_from(name: &[u8]) -> (r: bool)
    ensures
        r == (name@ == forward_variables_from_name()),
{
    let k: &[u8] = &[102u8, 111u8, 114u8, 119u8, 97u8, 114u8, 100u8, 95u8, 118u8, 97u8, 114u8, 105u8, 97u8, 98u8, 108u8, 101u8, 115u8, 95u8, 102u8, 114u8, 111u8, 109u8];
    assert(k@ =~= forward_variables_from_name());
    bytes_eq(name, k)
}

} // verus!
