//! The per-module interpretation driver: routes a build-declaration file's
//! content through lexer and parser, then either registers the file for
//! evaluation or registers the file together with its diagnostics — exactly
//! one registration per invocation, in one atomic call against the shared
//! build-system state.

use vstd::prelude::*;
use vstd::string::StringExecFns;
use crate::lexer::LexTable;
use crate::lexer::lex;
use crate::parser::ErrorModel;
use crate::parser::ParseError;
use crate::parser::parse;
use crate::parser::parse_spec;
use crate::tree::SyntaxKind;
use crate::tree::SyntaxToken;

verus! {

/// A positioned, file-attributed error record, owned by the shared sink and
/// never mutated after creation.
pub struct Diagnostic {
    pub file_id: usize,
    pub start: usize,
    pub len: usize,
    pub message: String,
}

/// Mathematical model of a diagnostic.
pub struct DiagnosticModel {
    pub file_id: int,
    pub start: int,
    pub len: int,
    pub message: Seq<char>,
}

impl View for Diagnostic {
    type V = DiagnosticModel;

    open spec fn view(&self) -> DiagnosticModel {
        DiagnosticModel {
            file_id: self.file_id as int,
            start: self.start as int,
            len: self.len as int,
            message: self.message@,
        }
    }
}

/// A registered file: its path and its verbatim content, so that spans can
/// later be resolved to source lines.
pub struct FileEntry {
    pub path: String,
    pub content: String,
}

/// The shared build-system state: the file registry (a file's identifier is
/// its index, unique and stable once issued) and the diagnostic sink.
pub struct BuildSys {
    pub files: Vec<FileEntry>,
    pub diagnostics: Vec<Diagnostic>,
}

/// Mathematical model of the build-system state.
pub struct BuildSysModel {
    pub files: Seq<(Seq<char>, Seq<char>)>,
    pub diagnostics: Seq<DiagnosticModel>,
}

impl View for BuildSys {
    type V = BuildSysModel;

    open spec fn view(&self) -> BuildSysModel {
        BuildSysModel {
            files: self.files@.map_values(|f: FileEntry| (f.path@, f.content@)),
            diagnostics: self.diagnostics@.map_values(|d: Diagnostic| d@),
        }
    }
}

/// The diagnostics that a chain of syntax errors yields for file `fid`.
pub open spec fn diags_of(errors: Seq<ErrorModel>, fid: int) -> Seq<DiagnosticModel> {
    errors.map_values(
        |e: ErrorModel|
            DiagnosticModel { file_id: fid, start: e.start, len: e.len, message: e.message },
    )
}

impl BuildSys {
    /// Fresh state: no files, no diagnostics.
    pub fn new() -> (r: BuildSys)
        ensures
            r@.files.len() == 0,
            r@.diagnostics.len() == 0,
    {
        let r = BuildSys { files: Vec::new(), diagnostics: Vec::new() };
        proof {
            assert(r@.files =~= Seq::<(Seq<char>, Seq<char>)>::empty());
            assert(r@.diagnostics =~= Seq::<DiagnosticModel>::empty());
        }
        r
    }

    /// Registers a file's path and verbatim content and issues its
    /// identifier; adds no diagnostics.
    pub fn register_new_file(&mut self, path: String, content: String) -> (fid: usize)
        requires
            old(self)@.files.len() < usize::MAX,
        ensures
            final(self)@.files == old(self)@.files.push((path@, content@)),
            final(self)@.diagnostics == old(self)@.diagnostics,
            fid == old(self)@.files.len(),
    {
        let fid = self.files.len();
        self.files.push(FileEntry { path, content });
        proof {
            assert(final(self)@.files =~= old(self)@.files.push((path@, content@)));
            assert(final(self)@.diagnostics =~= old(self)@.diagnostics);
        }
        fid
    }

    /// Registers a file and appends the whole chain of its diagnostics in the
    /// same call, each attributed to the newly issued identifier: a reader
    /// never sees the file without its errors nor errors without the file.
    pub fn register_file_and_report_chain(
        &mut self,
        path: String,
        content: String,
        errors: &Vec<ParseError>,
    ) -> (fid: usize)
        requires
            old(self)@.files.len() < usize::MAX,
        ensures
            final(self)@.files == old(self)@.files.push((path@, content@)),
            final(self)@.diagnostics == old(self)@.diagnostics + diags_of(
                errors@.map_values(|e: ParseError| e@),
                old(self)@.files.len() as int,
            ),
            fid == old(self)@.files.len(),
    {
        let ghost pathv = path@;
        let ghost contentv = content@;
        let ghost old_files = old(self)@.files;
        let ghost old_diags = old(self)@.diagnostics;
        let fid = self.files.len();
        self.files.push(FileEntry { path, content });
        proof {
            assert(self@.files =~= old_files.push((pathv, contentv)));
            assert(self@.diagnostics =~= old_diags);
        }
        let n = errors.len();
        let ghost target = diags_of(errors@.map_values(|e: ParseError| e@), fid as int);
        let mut i: usize = 0;
        while i < n
            invariant
                0 <= i <= n,
                n == errors@.len(),
                fid == old_files.len(),
                target == diags_of(errors@.map_values(|e: ParseError| e@), fid as int),
                target.len() == n,
                self@.files == old_files.push((pathv, contentv)),
                self@.diagnostics == old_diags + target.take(i as int),
            decreases n - i,
        {
            let ghost pre = self@.diagnostics;
            let d = Diagnostic {
                file_id: fid,
                start: errors[i].start,
                len: errors[i].len,
                message: errors[i].message.clone(),
            };
            proof {
                assert(errors@.map_values(|e: ParseError| e@)[i as int] == errors@[i as int]@);
                assert(target[i as int] == d@);
            }
            self.diagnostics.push(d);
            proof {
                assert(self@.diagnostics =~= pre.push(target[i as int]));
                assert(self@.files =~= old_files.push((pathv, contentv)));
                assert(old_diags + target.take(i + 1 as int) =~= (old_diags + target.take(
                    i as int,
                )).push(target[i as int]));
            }
            i = i + 1;
        }
        proof {
            assert(target.take(n as int) =~= target);
        }
        fid
    }
}

/// The dotted module path of a file inside the project's directory tree.
pub struct LfModName(pub String);

/// The per-file interpretation frame: the registered file's identifier and
/// the module path it was reached under. Created per invocation and not
/// retained beyond it.
pub struct FileFrame {
    pub file_id: usize,
    pub mod_path: LfModName,
}

impl FileFrame {
    /// A frame for file `file_id` interpreted under `mod_path`.
    pub fn new(file_id: usize, mod_path: LfModName) -> (r: FileFrame)
        ensures
            r.file_id == file_id,
            r.mod_path.0@ == mod_path.0@,
    {
        FileFrame { file_id, mod_path }
    }
}

/// The shared handle the driver mutates: the build-system state.
pub struct Handle {
    pub buildsys: BuildSys,
}

/// Why an invocation failed. Lexical and syntax errors are never failures —
/// they are data routed to the sink. Validation and result-writing failures
/// belong to downstream stages; the driver only carries them.
#[derive(Debug)]
pub enum InterpretFailure {
    /// The source file could not be read.
    CannotReadFile { path: String, reason: String },
    /// The accumulated configuration did not validate.
    Validate { message: String },
    /// The results could not be written.
    CannotWriteResults { message: String },
}

impl InterpretFailure {
    /// A human-readable description of the failure; a read failure names the
    /// file that could not be read.
    pub fn describe(&self) -> (r: String)
        ensures
            self is CannotReadFile ==> r@ == "cannot read file "@ + self->CannotReadFile_path@
                + ": "@ + self->CannotReadFile_reason@,
            self is Validate ==> r@ == self->Validate_message@,
            self is CannotWriteResults ==> r@ == self->CannotWriteResults_message@,
    {
        match self {
            InterpretFailure::CannotReadFile { path, reason } => {
                let mut out = "cannot read file ".to_owned();
                out.append(path.as_str());
                out.append(": ");
                out.append(reason.as_str());
                out
            },
            InterpretFailure::Validate { message } => message.clone(),
            InterpretFailure::CannotWriteResults { message } => message.clone(),
        }
    }
}

/// The declaration file's path inside a module directory.
pub open spec fn decl_file_path(root: Seq<char>) -> Seq<char> {
    root + "/build.leaf"@
}

/// Interprets one module directory's declaration file. `source` is the
/// outcome of reading `build.leaf` under the directory `root_path`: the
/// caller performs the read and hands over content or failure reason. A
/// read failure identifies the missing declaration file itself, not just
/// its directory.
///
/// Exactly one of three things happens, and the contract says which:
/// a read failure is returned as `CannotReadFile` with the state untouched;
/// content that parses cleanly registers the file (its own path, and its
/// verbatim content) and adds no diagnostics; content with syntax errors
/// registers the file and its whole error chain in one atomic call, every
/// diagnostic carrying the newly issued file identifier. Both the
/// registration and the failure name the declaration file itself, not just
/// its directory.
pub fn execute_on(
    handle: &mut Handle,
    root_path: &String,
    source: Result<String, String>,
    mod_path: LfModName,
    table: &LexTable,
    open: SyntaxKind,
    close: SyntaxKind,
) -> (r: Result<(), InterpretFailure>)
    requires
        old(handle).buildsys@.files.len() < usize::MAX,
    ensures
        (source matches Err(reason) ==> r matches Err(
            InterpretFailure::CannotReadFile { path, reason: why },
        ) && path@ == decl_file_path(root_path@) && why@ == reason@ && final(handle).buildsys@
            == old(handle).buildsys@),
        (source matches Ok(content) ==> {
            let errs = parse_spec(
                crate::lexer::lex_from(table@, content@, 0),
                open,
                close,
            ).1;
            r is Ok && final(handle).buildsys@.files == old(handle).buildsys@.files.push(
                (decl_file_path(root_path@), content@),
            ) && (errs.len() == 0 ==> final(handle).buildsys@.diagnostics == old(
                handle,
            ).buildsys@.diagnostics) && (errs.len() > 0 ==> final(handle).buildsys@.diagnostics
                == old(handle).buildsys@.diagnostics + diags_of(
                errs,
                old(handle).buildsys@.files.len() as int,
            ))
        }),
{
    match source {
        Err(reason) => {
            let mut missing = root_path.clone();
            missing.append("/build.leaf");
            Err(InterpretFailure::CannotReadFile { path: missing, reason })
        },
        Ok(content) => {
            let mut file_path = root_path.clone();
            file_path.append("/build.leaf");
            let tokens: Vec<SyntaxToken> = lex(table, content.as_str());
            let pr = parse(&tokens, open, close);
            let errors = pr.1;
            proof {
                assert(tokens@.map_values(|t: SyntaxToken| t@) == crate::lexer::lex_from(
                    table@,
                    content@,
                    0,
                ));
            }
            if errors.len() == 0 {
                proof {
                    assert(errors@.map_values(|e: ParseError| e@).len() == 0);
                }
                let fid = handle.buildsys.register_new_file(file_path, content);
                let _frame = FileFrame::new(fid, mod_path);
                Ok(())
            } else {
                handle.buildsys.register_file_and_report_chain(file_path, content, &errors);
                Ok(())
            }
        },
    }
}

} // verus!
