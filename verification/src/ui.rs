//! The data a front end edits and displays: the editor state, the actions a
//! user can queue, and the preloaded example programs. Rendering itself is
//! no concern of this crate.

use vstd::prelude::*;
use crate::compiler::CompileOptions;

verus! {

/// An action the user asked the editor to perform.
#[derive(Debug, Clone, Copy, PartialEq, Eq, Structural)]
pub enum EditorAction {
    Compile,
    Run,
    Clear,
}

/// The state of the code editor: the program text, the chosen passes, the
/// queued actions and the values entered for the free variables.
pub struct CodeEditor {
    pub code: String,
    pub compile_options: CompileOptions,
    pub actions: Vec<EditorAction>,
    pub input_variables: Vec<(String, String)>,
    pub disable_run: bool,
}

impl Default for CodeEditor {
    /// A fresh editor: a one-line program and only the cache optimization
    /// enabled.
    fn default() -> (r: Self)
        ensures
            r.code@ == "1 + 1"@,
            !r.compile_options.do_constant_folding,
            r.compile_options.run_cache_optimization,
            !r.compile_options.do_common_factor_elimination,
            !r.compile_options.do_shift_replacement,
            r.actions@.len() == 0,
            r.input_variables@.len() == 0,
            !r.disable_run,
    {
        let mut compile_options: CompileOptions = Default::default();
        compile_options.run_cache_optimization = true;
        CodeEditor {
            code: "1 + 1".to_owned(),
            compile_options,
            actions: Vec::new(),
            input_variables: Vec::new(),
            disable_run: false,
        }
    }
}

/// One example program: what a gallery shows about it, its source text and
/// the passes it is meant to demonstrate.
pub struct Example {
    pub title: &'static str,
    pub desc: &'static str,
    pub input: &'static str,
    pub options: CompileOptions,
}

/// The example gallery: the programs on offer and which one the user chose.
pub struct Examples {
    pub examples: Vec<Example>,
    pub chosen: Option<usize>,
}

impl Default for Examples {
    /// An empty gallery.
    fn default() -> (r: Self)
        ensures
            r.examples@.len() == 0,
            r.chosen is None,
    {
        Examples { examples: Vec::new(), chosen: None }
    }
}

impl Examples {
    /// The built-in example programs, one per feature of the toolchain.
    pub fn preloaded() -> (r: Self)
        ensures
            r.examples@.len() == 5,
            r.chosen is None,
            r.examples@[0].input@ == "3 + 2 + 1"@,
            !r.examples@[0].options.do_constant_folding,
            !r.examples@[0].options.run_cache_optimization,
            !r.examples@[0].options.do_common_factor_elimination,
            !r.examples@[0].options.do_shift_replacement,
            r.examples@[1].input@ == "1000 * 2 + 4 * 5 + (15 / 3) + x * 13 - y * 2"@,
            r.examples@[1].options.do_constant_folding,
            !r.examples@[1].options.run_cache_optimization,
            r.examples@[2].input@ == "(1000 + 2) * (4 * 5 + (15 / 3) + 17 * 13 - 8 * 2)"@,
            r.examples@[2].options.run_cache_optimization,
            r.examples@[3].input@ == "16 / 2 * 4 / 4"@,
            r.examples@[3].options.do_shift_replacement,
            r.examples@[3].options.run_cache_optimization,
            r.examples@[4].input@ == "t * 16 + t * (3 + 2)"@,
            r.examples@[4].options.do_common_factor_elimination,
            r.examples@[4].options.run_cache_optimization,
    {
        let mut res: Examples = Default::default();

        res.examples.push(
            Example {
                title: "examples.basic.title",
                desc: "examples.basic.desc",
                input: "3 + 2 + 1",
                options: CompileOptions {
                    do_constant_folding: false,
                    run_cache_optimization: false,
                    do_common_factor_elimination: false,
                    do_shift_replacement: false,
                },
            },
        );

        res.examples.push(
            Example {
                title: "examples.complex.title",
                desc: "examples.complex.desc",
                input: "1000 * 2 + 4 * 5 + (15 / 3) + x * 13 - y * 2",
                options: CompileOptions {
                    do_constant_folding: true,
                    run_cache_optimization: false,
                    do_common_factor_elimination: false,
                    do_shift_replacement: false,
                },
            },
        );

        res.examples.push(
            Example {
                title: "examples.ram_opt.title",
                desc: "examples.ram_opt.desc",
                input: "(1000 + 2) * (4 * 5 + (15 / 3) + 17 * 13 - 8 * 2)",
                options: CompileOptions {
                    do_constant_folding: false,
                    run_cache_optimization: true,
                    do_common_factor_elimination: false,
                    do_shift_replacement: false,
                },
            },
        );

        res.examples.push(
            Example {
                title: "examples.shift_mul.title",
                desc: "examples.shift_mul.desc",
                input: "16 / 2 * 4 / 4",
                options: CompileOptions {
                    do_constant_folding: false,
                    run_cache_optimization: true,
                    do_common_factor_elimination: false,
                    do_shift_replacement: true,
                },
            },
        );

        res.examples.push(
            Example {
                title: "examples.factorization.title",
                desc: "examples.factorization.desc",
                input: "t * 16 + t * (3 + 2)",
                options: CompileOptions {
                    do_constant_folding: false,
                    run_cache_optimization: true,
                    do_common_factor_elimination: true,
                    do_shift_replacement: false,
                },
            },
        );

        res
    }
}

} // verus!
