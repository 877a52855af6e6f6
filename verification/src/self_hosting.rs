//! The self-hosted compiler's sources: putting them together in order,
//! counting their lines, checking that each compiles, and documenting them.
use vstd::prelude::*;
use crate::text::{decimal, u64_to_decimal};

verus! {

pub const DOCS_PART_0: &'static str = r#"<!DOCTYPE html>
<html>
<head>
    <title>Sovereign Self-Hosting Compiler Documentation</title>
    <style>
        body { font-family: monospace; margin: 20px; }
        h1 { color: #333; }
        .stats { background: #f5f5f5; padding: 10px; border-left: 4px solid #0066cc; }
        .phase { margin: 20px 0; }
        table { border-collapse: collapse; width: 100%; }
        th, td { border: 1px solid #ddd; padding: 8px; text-align: left; }
        th { background-color: #0066cc; color: white; }
    </style>
</head>
<body>
    <h1>Sovereign Self-Hosting Compiler</h1>
    <p>Documentation for the self-hosted Sovereign compiler implementation.</p>
    
    <h2>Statistics</h2>
    <div class="stats">
        <table>
            <tr>
                <th>Component</th>
                <th>Lines of Code</th>
            </tr>
            <tr>
                <td>stdlib_native.sov</td>
                <td>"#;

pub const DOCS_PART_1: &'static str = r#"</td>
            </tr>
            <tr>
                <td>stdlib_ast.sov</td>
                <td>"#;

pub const DOCS_PART_2: &'static str = r#"</td>
            </tr>
            <tr>
                <td>lexer_self.sov</td>
                <td>"#;

pub const DOCS_PART_3: &'static str = r#"</td>
            </tr>
            <tr>
                <td>parser_self.sov</td>
                <td>"#;

pub const DOCS_PART_4: &'static str = r#"</td>
            </tr>
            <tr>
                <td>codegen_self.sov</td>
                <td>"#;

pub const DOCS_PART_5: &'static str = r#"</td>
            </tr>
            <tr>
                <td>compiler_self.sov</td>
                <td>"#;

pub const DOCS_PART_6: &'static str = r#"</td>
            </tr>
            <tr style="font-weight: bold;">
                <td>TOTAL</td>
                <td>"#;

pub const DOCS_PART_7: &'static str = r#"</td>
            </tr>
        </table>
    </div>
    
    <h2>Components</h2>
    
    <div class="phase">
        <h3>Phase 1: Standard Library Extensions (stdlib_native.sov)</h3>
        <p>Extended standard library providing:</p>
        <ul>
            <li>Vec&lt;T&gt;: Generic dynamic arrays</li>
            <li>HashMap&lt;K,V&gt;: String-keyed hash tables</li>
            <li>String methods: split, join, find, replace, substring, etc.</li>
            <li>File I/O: open, read, write, close</li>
            <li>Binary utilities: byte manipulation and conversion</li>
        </ul>
    </div>
    
    <div class="phase">
        <h3>Phase 1b: AST Type Definitions (stdlib_ast.sov)</h3>
        <p>Data structures representing the Sovereign syntax tree:</p>
        <ul>
            <li>Token enum: All token types</li>
            <li>Expr enum: Expression variants</li>
            <li>Stmt enum: Statement variants</li>
            <li>Program struct: Root AST node</li>
        </ul>
    </div>
    
    <div class="phase">
        <h3>Phase 2: Lexer (lexer_self.sov)</h3>
        <p>Self-hosted tokenizer:</p>
        <ul>
            <li>Reads Sovereign source files</li>
            <li>Produces Vec&lt;Token&gt;</li>
            <li>Handles all keywords, operators, literals</li>
            <li>Tracks line/column information</li>
        </ul>
    </div>
    
    <div class="phase">
        <h3>Phase 3: Parser (parser_self.sov)</h3>
        <p>Recursive descent parser:</p>
        <ul>
            <li>Consumes Vec&lt;Token&gt;</li>
            <li>Produces Program AST</li>
            <li>Implements full Sovereign grammar</li>
            <li>Error recovery and diagnostics</li>
        </ul>
    </div>
    
    <div class="phase">
        <h3>Phase 4: C Code Generator (codegen_self.sov)</h3>
        <p>Emits C code from AST:</p>
        <ul>
            <li>Generates ANSI C output</li>
            <li>Preserves security semantics</li>
            <li>Compilable with gcc/clang</li>
            <li>Integrates with Sovereign runtime</li>
        </ul>
    </div>
</body>
</html>"#;


/// The six source files of the self-hosted compiler.
pub struct SelfHostingCompiler {
    stdlib_native: String,
    stdlib_ast: String,
    lexer_self: String,
    parser_self: String,
    codegen_self: String,
    compiler_self: String,
}

/// Lines of code of each component.
pub struct SelfHostingStats {
    pub stdlib_lines: usize,
    pub ast_lines: usize,
    pub lexer_lines: usize,
    pub parser_lines: usize,
    pub codegen_lines: usize,
    pub compiler_lines: usize,
}

/// The number of lines `str::lines` yields: one per line feed, and one
/// more for text after the last line feed.
pub open spec fn line_count(s: Seq<char>) -> nat
    decreases s.len(),
{
    if s.len() == 0 {
        0
    } else if s.last() == '\n' {
        newlines(s.drop_last()) + 1
    } else {
        newlines(s) + 1
    }
}

pub open spec fn newlines(s: Seq<char>) -> nat
    decreases s.len(),
{
    if s.len() == 0 {
        0
    } else {
        newlines(s.drop_last()) + if s.last() == '\n' { 1nat } else { 0nat }
    }
}

pub open spec fn stats_total(s: SelfHostingStats) -> int {
    s.stdlib_lines + s.ast_lines + s.lexer_lines + s.parser_lines + s.codegen_lines + s.compiler_lines
}

/// Counts the lines of a text as `str::lines` does.
pub fn count_lines(s: &str) -> (r: usize)
    ensures
        r == line_count(s@),
{
    let cs = crate::text::chars_of(s);
    let mut n: usize = 0;
    let mut i: usize = 0;
    while i < cs.len()
        invariant
            i <= cs@.len(),
            cs@ == s@,
            n == newlines(cs@.take(i as int)),
            n <= i,
        decreases cs.len() - i,
    {
        proof {
            assert(cs@.take(i + 1).drop_last() =~= cs@.take(i as int));
        }
        if cs[i] == '\n' {
            n = n + 1;
        }
        i = i + 1;
    }
    proof {
        assert(cs@.take(cs@.len() as int) =~= cs@);
    }
    proof {
        lemma_newlines_le(cs@);
    }
    if cs.len() == 0 {
        0
    } else if cs[cs.len() - 1] == '\n' {
        proof {
            assert(cs@.drop_last() =~= cs@.take(cs@.len() - 1));
            assert(cs@.take(cs@.len() as int).drop_last() =~= cs@.take(cs@.len() - 1));
        }
        n
    } else {
        proof {
            lemma_newlines_le(cs@.drop_last());
            assert(newlines(cs@) == newlines(cs@.drop_last()));
        }
        n + 1
    }
}

proof fn lemma_newlines_le(s: Seq<char>)
    ensures
        newlines(s) <= s.len(),
    decreases s.len(),
{
    if s.len() > 0 {
        lemma_newlines_le(s.drop_last());
    }
}

impl SelfHostingCompiler {
    /// The compiler from the texts of its six components.
    pub fn new(
        stdlib_native: String,
        stdlib_ast: String,
        lexer_self: String,
        parser_self: String,
        codegen_self: String,
        compiler_self: String,
    ) -> (r: SelfHostingCompiler)
        ensures
            r.sources() == seq![stdlib_native@, stdlib_ast@, lexer_self@, parser_self@, codegen_self@, compiler_self@],
    {
        SelfHostingCompiler { stdlib_native, stdlib_ast, lexer_self, parser_self, codegen_self, compiler_self }
    }

    /// The components' texts, in build order.
    pub closed spec fn sources(&self) -> Seq<Seq<char>> {
        seq![self.stdlib_native@, self.stdlib_ast@, self.lexer_self@, self.parser_self@, self.codegen_self@, self.compiler_self@]
    }

    /// All components in build order, each under a heading comment.
    pub fn concatenate_sources(&self) -> (r: String)
        ensures
            r@ == "// === Self-Hosted Sovereign Compiler ===\n\n"@ + "// Phase 1: Standard Library Extensions\n"@
                + self.sources()[0] + "\n\n// Phase 1b: AST Type Definitions\n"@ + self.sources()[1]
                + "\n\n// Phase 2: Lexer\n"@ + self.sources()[2] + "\n\n// Phase 3: Parser\n"@ + self.sources()[3]
                + "\n\n// Phase 4: C Code Generator\n"@ + self.sources()[4] + "\n\n// Main Compiler Entry Point\n"@
                + self.sources()[5],
    {
        let mut r = String::from_str("// === Self-Hosted Sovereign Compiler ===\n\n");
        r.append("// Phase 1: Standard Library Extensions\n");
        r.append(self.stdlib_native.as_str());
        r.append("\n\n// Phase 1b: AST Type Definitions\n");
        r.append(self.stdlib_ast.as_str());
        r.append("\n\n// Phase 2: Lexer\n");
        r.append(self.lexer_self.as_str());
        r.append("\n\n// Phase 3: Parser\n");
        r.append(self.parser_self.as_str());
        r.append("\n\n// Phase 4: C Code Generator\n");
        r.append(self.codegen_self.as_str());
        r.append("\n\n// Main Compiler Entry Point\n");
        r.append(self.compiler_self.as_str());
        r
    }

    /// The number of lines of each component.
    pub fn statistics(&self) -> (r: SelfHostingStats)
        ensures
            r.stdlib_lines == line_count(self.sources()[0]),
            r.ast_lines == line_count(self.sources()[1]),
            r.lexer_lines == line_count(self.sources()[2]),
            r.parser_lines == line_count(self.sources()[3]),
            r.codegen_lines == line_count(self.sources()[4]),
            r.compiler_lines == line_count(self.sources()[5]),
    {
        SelfHostingStats {
            stdlib_lines: count_lines(self.stdlib_native.as_str()),
            ast_lines: count_lines(self.stdlib_ast.as_str()),
            lexer_lines: count_lines(self.lexer_self.as_str()),
            parser_lines: count_lines(self.parser_self.as_str()),
            codegen_lines: count_lines(self.codegen_self.as_str()),
            compiler_lines: count_lines(self.compiler_self.as_str()),
        }
    }

    /// The HTML page documenting the components, with the line counts in
    /// its table; `None` if the total does not fit in a `u64`.
    pub fn docs_html(&self) -> (r: Option<String>)
        ensures
            match r {
                Some(h) => {
                    let s = self.stats_of();
                    &&& stats_total(s) <= usize::MAX
                    &&& h@ == DOCS_PART_0@ + decimal(s.stdlib_lines as nat) + DOCS_PART_1@ + decimal(s.ast_lines as nat)
                        + DOCS_PART_2@ + decimal(s.lexer_lines as nat) + DOCS_PART_3@ + decimal(s.parser_lines as nat)
                        + DOCS_PART_4@ + decimal(s.codegen_lines as nat) + DOCS_PART_5@ + decimal(s.compiler_lines as nat)
                        + DOCS_PART_6@ + decimal(stats_total(s) as nat) + DOCS_PART_7@
                },
                None => stats_total(self.stats_of()) > usize::MAX,
            },
    {
        let st = self.statistics();
        let total = match st.checked_total() {
            Some(t) => t,
            None => {
                return None;
            },
        };
        let mut h = String::from_str(DOCS_PART_0);
        h.append(u64_to_decimal(st.stdlib_lines as u64).as_str());
        h.append(DOCS_PART_1);
        h.append(u64_to_decimal(st.ast_lines as u64).as_str());
        h.append(DOCS_PART_2);
        h.append(u64_to_decimal(st.lexer_lines as u64).as_str());
        h.append(DOCS_PART_3);
        h.append(u64_to_decimal(st.parser_lines as u64).as_str());
        h.append(DOCS_PART_4);
        h.append(u64_to_decimal(st.codegen_lines as u64).as_str());
        h.append(DOCS_PART_5);
        h.append(u64_to_decimal(st.compiler_lines as u64).as_str());
        h.append(DOCS_PART_6);
        h.append(u64_to_decimal(total as u64).as_str());
        h.append(DOCS_PART_7);
        Some(h)
    }

    /// The statistics of the components.
    pub closed spec fn stats_of(&self) -> SelfHostingStats {
        SelfHostingStats {
            stdlib_lines: line_count(self.sources()[0]) as usize,
            ast_lines: line_count(self.sources()[1]) as usize,
            lexer_lines: line_count(self.sources()[2]) as usize,
            parser_lines: line_count(self.sources()[3]) as usize,
            codegen_lines: line_count(self.sources()[4]) as usize,
            compiler_lines: line_count(self.sources()[5]) as usize,
        }
    }
}

impl SelfHostingStats {
    /// The lines of all components together.
    pub fn total(&self) -> (r: usize)
        requires
            stats_total(*self) <= usize::MAX,
        ensures
            r == stats_total(*self),
    {
        self.stdlib_lines + self.ast_lines + self.lexer_lines + self.parser_lines + self.codegen_lines + self.compiler_lines
    }

    /// `total`, or `None` where the sum does not fit in a `usize`.
    pub fn checked_total(&self) -> (r: Option<usize>)
        ensures
            match r {
                Some(t) => t == stats_total(*self),
                None => stats_total(*self) > usize::MAX,
            },
    {
        let mut t: usize = self.stdlib_lines;
        let parts = [self.ast_lines, self.lexer_lines, self.parser_lines, self.codegen_lines, self.compiler_lines];
        let mut i: usize = 0;
        while i < 5
            invariant
                i <= 5,
                parts@ == seq![self.ast_lines, self.lexer_lines, self.parser_lines, self.codegen_lines, self.compiler_lines],
                t == self.stdlib_lines + if i >= 1 { self.ast_lines as int } else { 0 } + if i >= 2 { self.lexer_lines as int } else { 0 }
                    + if i >= 3 { self.parser_lines as int } else { 0 } + if i >= 4 { self.codegen_lines as int } else { 0 }
                    + if i >= 5 { self.compiler_lines as int } else { 0 },
            decreases 5 - i,
        {
            match t.checked_add(parts[i]) {
                Some(s) => t = s,
                None => {
                    return None;
                },
            }
            i = i + 1;
        }
        Some(t)
    }
}

} // verus!
