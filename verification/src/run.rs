//! The runner: how the runtime is invoked on the entry class, and what a
//! run that failed is reported as.

use vstd::prelude::*;
use crate::cache::{class_name, class_name_of};
use crate::text::{
    append_chars, append_str, chars_of, decimal_of, ends_with, signed_decimal, str_views, string_of,
};

verus! {

/// The failure text for an entry file that cannot be found.
pub open spec fn not_found_message(main_file: Seq<char>) -> Seq<char> {
    "File not found: "@ + main_file
}

/// The failure text for an entry file without the source extension.
pub open spec fn invalid_entry_message(main_file: Seq<char>) -> Seq<char> {
    "Invalid Java file: "@ + main_file
}

/// The failure text for a run that ended with the status `code`.
pub open spec fn exit_message(code: int) -> Seq<char> {
    "Program exited with status code: "@ + decimal_of(code)
}

/// The arguments of the runtime: the class-path flag, the output
/// directory, the runtime options in order, and the entry class.
pub open spec fn runtime_args_of(
    out_dir: Seq<char>,
    jvm_opts: Seq<Seq<char>>,
    class: Seq<char>,
) -> Seq<Seq<char>> {
    seq!["-cp"@, out_dir] + jvm_opts + seq![class]
}

/// The failure for an entry file that cannot be found.
pub fn not_found(main_file: &str) -> (r: String)
    ensures
        r@ == not_found_message(main_file@),
{
    let mut v = chars_of("File not found: ");
    append_str(&mut v, main_file);
    string_of(&v)
}

/// The name of the entry class: the entry file's name without the source
/// extension. An entry file without that extension is refused.
pub fn entry_class(main_file: &str) -> (r: Result<String, String>)
    ensures
        match r {
            Ok(class) => ".java"@.is_suffix_of(main_file@) && class@ == class_name_of(main_file@),
            Err(msg) => !".java"@.is_suffix_of(main_file@) && msg@ == invalid_entry_message(
                main_file@,
            ),
        },
{
    let v = chars_of(main_file);
    let ext = chars_of(".java");
    if ends_with(&v, &ext) {
        Ok(class_name(main_file))
    } else {
        let mut msg = chars_of("Invalid Java file: ");
        append_chars(&mut msg, &v);
        Err(string_of(&msg))
    }
}

/// The arguments with which the runtime is invoked on the entry file; the
/// failure where the entry file is refused.
pub fn runtime_args(out_dir: &str, jvm_opts: &Vec<String>, main_file: &str) -> (r: Result<
    Vec<String>,
    String,
>)
    ensures
        match r {
            Ok(args) => ".java"@.is_suffix_of(main_file@) && str_views(args@) == runtime_args_of(
                out_dir@,
                str_views(jvm_opts@),
                class_name_of(main_file@),
            ),
            Err(msg) => !".java"@.is_suffix_of(main_file@) && msg@ == invalid_entry_message(
                main_file@,
            ),
        },
{
    match entry_class(main_file) {
        Err(msg) => Err(msg),
        Ok(class) => {
            let mut args: Vec<String> = Vec::new();
            args.push("-cp".to_owned());
            args.push(out_dir.to_owned());
            let ghost head = seq!["-cp"@, out_dir@];
            let ghost opts = str_views(jvm_opts@);
            assert(str_views(args@) =~= head + opts.take(0));
            let mut i: usize = 0;
            while i < jvm_opts.len()
                invariant
                    i <= jvm_opts.len(),
                    opts == str_views(jvm_opts@),
                    str_views(args@) == head + opts.take(i as int),
                decreases jvm_opts.len() - i,
            {
                let opt = jvm_opts[i].clone();
                assert(str_views(args@.push(opt)) =~= str_views(args@).push(opt@));
                assert(opts.take(i + 1) =~= opts.take(i as int).push(opt@));
                assert(head + opts.take(i as int).push(opt@) =~= (head + opts.take(i as int)).push(
                    opt@,
                ));
                args.push(opt);
                i += 1;
            }
            assert(opts.take(jvm_opts.len() as int) == opts);
            let ghost before = str_views(args@);
            assert(str_views(args@.push(class)) =~= before + seq![class@]);
            args.push(class);
            Ok(args)
        },
    }
}

/// What a finished run amounts to: a failure that carries the exit
/// status where the run did not succeed; -1 stands for a run that ended
/// without a status.
pub fn run_outcome(succeeded: bool, code: Option<i32>) -> (r: Result<(), String>)
    ensures
        match r {
            Ok(()) => succeeded,
            Err(msg) => !succeeded && msg@ == exit_message(
                match code {
                    Some(c) => c as int,
                    None => -1,
                },
            ),
        },
{
    if succeeded {
        return Ok(());
    }
    let status: i64 = match code {
        Some(c) => c as i64,
        None => -1,
    };
    let mut msg = chars_of("Program exited with status code: ");
    let digits = signed_decimal(status);
    append_chars(&mut msg, &digits);
    Err(string_of(&msg))
}

} // verus!
