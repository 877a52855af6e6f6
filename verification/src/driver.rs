//! The compiler's front end as one call: source text to a monomorphized
//! program, and the analyses run on a program before code generation.
use vstd::prelude::*;
use crate::ast::Program;
use crate::generics::{monomorphize, is_generic_decl, has_generic_decl};
use crate::lexer::{tokenize, spec_tokens, LexError};
use crate::parser::{Parser, ParseError, blank_rest};
use crate::token::{SpecToken, Sym};
use crate::safety::{SafetyAnalyzer, stmts_step, initial_state};
use crate::semantic::Analyzer;
use crate::infer::{infer, all_typed};
use crate::text::{trim, trimmed, chars_of, push_char, strip_quotes_start, strip_quotes_end, lemma_strip_quotes_from, lemma_strip_quotes_to};

verus! {

/// Why source text could not be turned into a program.
pub enum CompileError {
    Lex(LexError),
    Parse(ParseError),
}

/// Lexes, parses and monomorphizes source text. `lines` are the source's
/// lines, kept for error reports.
pub fn compile_source(source: &str, lines: Vec<String>) -> (r: Result<Program, CompileError>)
    requires
        source@.len() < usize::MAX,
    ensures
        spec_tokens(source@, 0) is None ==> r matches Err(CompileError::Lex(_)),
        r is Ok ==> spec_tokens(source@, 0) is Some,
        r matches Ok(p) ==> forall|i: int| 0 <= i < p@.statements.len() ==> !is_generic_decl(#[trigger] p@.statements[i]),
        spec_tokens(source@, 0) matches Some(toks) && blank_rest(toks.map_values(|t: (SpecToken, int)| t.0).push(SpecToken::Sym(Sym::Eof)), 0)
            ==> (r matches Ok(p) && p@.statements.len() == 0),
{
    let (tokens, spans) = match tokenize(source) {
        Ok(t) => t,
        Err(e) => {
            return Err(CompileError::Lex(e));
        },
    };
    let mut parser = Parser::new(tokens, spans).with_source(lines);
    match parser.parse_program() {
        Ok(program) => {
            proof {
                if program@.statements.len() == 0 {
                    assert(!has_generic_decl(program@.statements));
                }
            }
            Ok(monomorphize(&program))
        },
        Err(e) => Err(CompileError::Parse(e)),
    }
}

/// What the analyses found in a program.
pub struct AnalysisReport {
    /// The program with its missing types filled in, as analyzed.
    pub program: Program,
    pub safety_errors: Vec<String>,
    pub safety_warnings: Vec<String>,
    pub errors: Vec<String>,
    pub warnings: Vec<String>,
}

/// Type inference, then the memory-safety checks, then semantic analysis.
pub fn run_analysis(program: &Program) -> (r: AnalysisReport)
    ensures
        r.program@.statements.len() == program@.statements.len(),
        all_typed(r.program@.statements),
        crate::safety::strs(r.safety_errors@) == stmts_step(initial_state(), r.program@.statements).errors,
        crate::safety::strs(r.safety_warnings@) == stmts_step(initial_state(), r.program@.statements).warnings,
        r.program@.statements == crate::infer::infer_program_spec(program@.statements),
        crate::semantic::stmts_spec(crate::semantic::initial_state(), r.program@.statements) matches Some(m)
            ==> crate::semantic::strs(r.errors@) == m.errors && crate::semantic::strs(r.warnings@) == m.warnings,
{
    let mut typed = crate::ast::copy_program(program);
    infer(&mut typed);
    let mut safety = SafetyAnalyzer::new();
    let _ = safety.analyze(&typed);
    let mut analyzer = Analyzer::new();
    let errors = match analyzer.analyze(&typed) {
        Ok(()) => {
            let none: Vec<String> = Vec::new();
            proof {
                assert(crate::semantic::strs(none@) =~= analyzer@.errors);
            }
            none
        },
        Err(es) => es,
    };
    let warnings = copy_messages(analyzer.warnings());
    let (safety_errors, safety_warnings) = safety.into_messages();
    AnalysisReport { program: typed, safety_errors, safety_warnings, errors, warnings }
}

fn copy_messages(v: &Vec<String>) -> (r: Vec<String>)
    ensures
        crate::semantic::strs(r@) == crate::semantic::strs(v@),
{
    let mut out: Vec<String> = Vec::new();
    let mut i: usize = 0;
    while i < v.len()
        invariant
            i <= v@.len(),
            crate::semantic::strs(out@) == crate::semantic::strs(v@.take(i as int)),
        decreases v.len() - i,
    {
        let c = v[i].clone();
        proof {
            assert(c == v@[i as int]);
            assert(v@.take(i + 1) =~= v@.take(i as int).push(v@[i as int]));
            assert(crate::semantic::strs(out@.push(c)) =~= crate::semantic::strs(out@).push(c@));
            assert(crate::semantic::strs(v@.take(i + 1)) =~= crate::semantic::strs(v@.take(i as int)).push(c@));
        }
        out.push(c);
        i = i + 1;
    }
    proof {
        assert(v@.take(v@.len() as int) =~= v@);
    }
    out
}

/// The file that an `import "path"` line names: the rest of the trimmed
/// line after `import `, trimmed again, without the double quotes at
/// either end. `None` for any other line.
pub open spec fn import_path_spec(line: Seq<char>) -> Option<Seq<char>> {
    let t = trimmed(line);
    if t.len() >= 7 && t.subrange(0, 7) == "import "@ {
        Some(strip_quotes_end(strip_quotes_start(trimmed(t.subrange(7, t.len() as int)))))
    } else {
        None
    }
}

/// The file an import line names (see `import_path_spec`).
pub fn import_path_of(line: &str) -> (r: Option<String>)
    ensures
        match r {
            Some(p) => import_path_spec(line@) == Some(p@),
            None => import_path_spec(line@) is None,
        },
{
    proof {
        reveal_strlit("import ");
    }
    let t = trim(line);
    let cs = chars_of(t.as_str());
    let n = cs.len();
    if n < 7 || cs[0] != 'i' || cs[1] != 'm' || cs[2] != 'p' || cs[3] != 'o' || cs[4] != 'r' || cs[5] != 't' || cs[6] != ' ' {
        proof {
            if n >= 7 {
                let pre = cs@.subrange(0, 7);
                if pre == "import "@ {
                    assert(pre[0] == cs@[0] && pre[1] == cs@[1] && pre[2] == cs@[2] && pre[3] == cs@[3]);
                    assert(pre[4] == cs@[4] && pre[5] == cs@[5] && pre[6] == cs@[6]);
                }
            }
        }
        return None;
    }
    assert(cs@.subrange(0, 7) =~= "import "@);
    let mut rest = String::new();
    let mut k: usize = 7;
    while k < n
        invariant
            n == cs@.len(),
            7 <= k <= n,
            rest@ == cs@.subrange(7, k as int),
        decreases n - k,
    {
        push_char(&mut rest, cs[k]);
        assert(cs@.subrange(7, k + 1) =~= cs@.subrange(7, k as int).push(cs@[k as int]));
        k = k + 1;
    }
    let inner = trim(rest.as_str());
    let ic = chars_of(inner.as_str());
    let m = ic.len();
    let mut start: usize = 0;
    while start < m && ic[start] == '"'
        invariant
            m == ic@.len(),
            start <= m,
            forall|j: int| 0 <= j < start ==> ic@[j] == '"',
        decreases m - start,
    {
        start = start + 1;
    }
    proof {
        lemma_strip_quotes_from(ic@, start as int);
    }
    let mut end: usize = m;
    while end > start && ic[end - 1] == '"'
        invariant
            m == ic@.len(),
            start <= end <= m,
            forall|j: int| end <= j < m ==> ic@[j] == '"',
        decreases end - start,
    {
        end = end - 1;
    }
    proof {
        let s = ic@.subrange(start as int, m as int);
        assert forall|j: int| end - start <= j < s.len() implies s[j] == '"' by {
            assert(s[j] == ic@[start + j]);
        }
        if end > start {
            assert(s[end - start - 1] == ic@[end - 1]);
        }
        lemma_strip_quotes_to(s, end - start);
        assert(s.subrange(0, end - start) =~= ic@.subrange(start as int, end as int));
    }
    let mut out = String::new();
    let mut j: usize = start;
    while j < end
        invariant
            start <= j <= end <= ic@.len(),
            out@ == ic@.subrange(start as int, j as int),
        decreases end - j,
    {
        push_char(&mut out, ic[j]);
        assert(ic@.subrange(start as int, j + 1) =~= ic@.subrange(start as int, j as int).push(ic@[j as int]));
        j = j + 1;
    }
    Some(out)
}

} // verus!
