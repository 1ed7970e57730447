use vstd::prelude::*;

use crate::error::{LexerError, LexerErrorView};
use crate::tokenizer::{
    char_at, ident_at, is_alpha, is_word_char, is_ws, keyword_at, kw_at, push_char, quote_end, w_elif,
    w_else, w_false, w_fn, w_if, w_import, w_let, w_ret, w_true, w_while, word_at, word_end, ws_end,
    Tokenizer,
};

verus! {

// ---------------------------------------------------------------------------
// Import expansion.  Before lexing, every `import name;` or `import "path";`
// statement is replaced by the text of the file it names followed by a newline,
// and the scan resumes at the start of the inserted text.  A path that was
// imported before is not read again: its statement is deleted.  Reading files is
// left to the caller: the expander stops and names the file it needs.
// ---------------------------------------------------------------------------

/// What follows `import` and the white space after it.
pub enum PathView {
    /// The path and the position just after it.
    Path(Seq<char>, int),
    /// Neither a quoted path nor an identifier.
    NoIdent,
    /// A quoted path without closing quote: the scan never ends.
    Unterminated,
}

pub open spec fn f4na_ext() -> Seq<char> {
    seq!['.', 'f', '4', 'n', 'a']
}

pub open spec fn import_path(s: Seq<char>, q: int) -> PathView {
    if char_at(s, q) == '"' {
        let e = quote_end(s, q + 1);
        if e >= s.len() {
            PathView::Unterminated
        } else {
            PathView::Path(s.subrange(q + 1, e), e + 1)
        }
    } else if ident_at(s, q) {
        let e = word_end(s, q);
        PathView::Path(s.subrange(q, e) + f4na_ext(), e)
    } else {
        PathView::NoIdent
    }
}

/// The error for a missing `;` after an import.
pub open spec fn semicolon_expected() -> LexerErrorView {
    LexerErrorView::ExpectedToken(seq![';'])
}

/// Where the scan of imports stops.
pub enum ImportScan {
    /// The statement at `start` names `path`, not imported yet; `after` is the
    /// position just after the path.
    NeedFile { text: Seq<char>, start: int, after: int, path: Seq<char> },
    /// No import is left: the expanded text.
    Done(Seq<char>),
    Failed(LexerErrorView),
    /// The scan would index past the end of the text or never end.
    Aborted,
}

/// `s` without the characters from `a` up to `b`, with `mid` in their place.
pub open spec fn splice(s: Seq<char>, a: int, b: int, mid: Seq<char>) -> Seq<char> {
    s.subrange(0, a) + mid + s.subrange(b, s.len() as int)
}

/// Scans `s` for import statements from `pos` on; `imported` are the paths read so far.
pub open spec fn import_scan(s: Seq<char>, pos: int, imported: Seq<Seq<char>>) -> ImportScan
    decreases s.len() - pos,
{
    if pos < 0 || pos >= s.len() {
        ImportScan::Done(s)
    } else {
        let p = ws_end(s, pos);
        if word_at(s, p, w_import()) {
            if p + 6 >= s.len() {
                ImportScan::Aborted
            } else {
                match import_path(s, ws_end(s, p + 6)) {
                    PathView::Unterminated => ImportScan::Aborted,
                    PathView::NoIdent => ImportScan::Failed(LexerErrorView::ExpectedIdentifier),
                    PathView::Path(path, after) => if imported.contains(path) {
                        if char_at(s, after) != ';' {
                            ImportScan::Failed(semicolon_expected())
                        } else if pos <= p < after < s.len() {
                            import_scan(splice(s, p, after + 1, Seq::empty()), p, imported)
                        } else {
                            ImportScan::Aborted
                        }
                    } else {
                        ImportScan::NeedFile { text: s, start: p, after, path }
                    },
                }
            }
        } else if p >= s.len() {
            ImportScan::Done(s)
        } else if p >= pos {
            import_scan(s, p + 1, imported)
        } else {
            ImportScan::Aborted
        }
    }
}

/// Resuming after the file named at `start` was read: `contents` is its text, or
/// `None` where it could not be read.
pub open spec fn import_resume(
    s: Seq<char>,
    start: int,
    after: int,
    path: Seq<char>,
    imported: Seq<Seq<char>>,
    contents: Option<Seq<char>>,
) -> ImportScan {
    match contents {
        None => ImportScan::Failed(LexerErrorView::FileNotFound(path)),
        Some(text) => if char_at(s, after) != ';' {
            ImportScan::Failed(semicolon_expected())
        } else {
            import_scan(splice(s, start, after + 1, text.push('\n')), start, imported.push(path))
        },
    }
}

/// What the expander asks of its caller.
#[derive(Debug, PartialEq)]
pub enum ImportStep {
    /// Read this file and hand its text to `file_contents`.
    NeedFile(String),
    /// Expansion is finished; `source` gives the text.
    Done,
    Failed(LexerError),
    /// The scan of this text never ends, or reads past its end.
    Aborted,
}

/// A file request that has not been answered yet.
pub struct Pending {
    pub start: usize,
    pub after: usize,
    pub path: String,
}

/// The import expander: the text, the scan position, the paths already imported and
/// the file request in flight.
pub struct ImportExpander {
    src: Vec<char>,
    pos: usize,
    imported: Vec<String>,
    pending: Option<Pending>,
}

pub open spec fn strings_view(v: Seq<String>) -> Seq<Seq<char>> {
    v.map_values(|s: String| s@)
}

impl ImportExpander {
    pub closed spec fn text(&self) -> Seq<char> {
        self.src@
    }

    pub closed spec fn position(&self) -> int {
        self.pos as int
    }

    pub closed spec fn imported_paths(&self) -> Seq<Seq<char>> {
        strings_view(self.imported@)
    }

    /// The request in flight: start, end of path and path.
    pub closed spec fn request(&self) -> Option<(int, int, Seq<char>)> {
        match self.pending {
            Some(p) => Some((p.start as int, p.after as int, p.path@)),
            None => None,
        }
    }

    pub closed spec fn wf(&self) -> bool {
        &&& self.pos <= self.src.len()
        &&& self.pending matches Some(p) ==> p.start < p.after < self.src.len() + 1
    }

    /// Starts the expansion of a text.
    pub fn new(src: Vec<char>) -> (r: Self)
        ensures
            r.wf(),
            r.text() == src@,
            r.position() == 0,
            r.imported_paths() == Seq::<Seq<char>>::empty(),
            r.request() is None,
    {
        let r = ImportExpander { src, pos: 0, imported: Vec::new(), pending: None };
        assert(r.imported_paths() =~= Seq::<Seq<char>>::empty());
        r
    }

    /// The text, expanded so far.
    pub fn source(self) -> (r: Vec<char>)
        ensures
            r@ == self.text(),
    {
        self.src
    }

    fn already_imported(&self, path: &String) -> (r: bool)
        ensures
            r == self.imported_paths().contains(path@),
    {
        let mut i: usize = 0;
        while i < self.imported.len()
            invariant
                i <= self.imported.len(),
                forall|j: int| 0 <= j < i ==> self.imported@[j]@ != path@,
            decreases self.imported.len() - i,
        {
            if self.imported[i] == *path {
                assert(self.imported_paths()[i as int] == path@);
                return true;
            }
            i = i + 1;
        }
        assert(!self.imported_paths().contains(path@)) by {
            if self.imported_paths().contains(path@) {
                let k = choose|k: int| 0 <= k < self.imported_paths().len() && self.imported_paths()[k] == path@;
                assert(self.imported@[k]@ == path@);
            }
        }
        false
    }
}

/// `s` with the characters from `a` up to `b` replaced by `mid`.
fn splice_exec(s: &Vec<char>, a: usize, b: usize, mid: &Vec<char>) -> (r: Vec<char>)
    requires
        a <= b <= s.len(),
    ensures
        r@ == splice(s@, a as int, b as int, mid@),
{
    let mut out: Vec<char> = Vec::new();
    let mut i: usize = 0;
    while i < a
        invariant
            i <= a <= b <= s.len(),
            out@ == s@.subrange(0, i as int),
        decreases a - i,
    {
        out.push(s[i]);
        assert(s@.subrange(0, i + 1) =~= s@.subrange(0, i as int).push(s@[i as int]));
        i = i + 1;
    }
    let mut j: usize = 0;
    while j < mid.len()
        invariant
            j <= mid.len(),
            out@ == s@.subrange(0, a as int) + mid@.subrange(0, j as int),
        decreases mid.len() - j,
    {
        out.push(mid[j]);
        assert(mid@.subrange(0, j + 1) =~= mid@.subrange(0, j as int).push(mid@[j as int]));
        j = j + 1;
    }
    let mut k: usize = b;
    while k < s.len()
        invariant
            b <= k <= s.len(),
            out@ == s@.subrange(0, a as int) + mid@ + s@.subrange(b as int, k as int),
        decreases s.len() - k,
    {
        out.push(s[k]);
        assert(s@.subrange(b as int, k + 1) =~= s@.subrange(b as int, k as int).push(s@[k as int]));
        k = k + 1;
    }
    assert(mid@.subrange(0, mid@.len() as int) =~= mid@);
    out
}

/// The step `r` and the expander `st` after it agree with the scan outcome `sc`.
pub open spec fn step_matches(sc: ImportScan, r: ImportStep, st: ImportExpander) -> bool {
    &&& st.wf()
    &&& match sc {
        ImportScan::NeedFile { text, start, after, path } => {
            &&& r matches ImportStep::NeedFile(p) && p@ == path
            &&& st.text() == text
            &&& st.request() == Some((start, after, path))
        },
        ImportScan::Done(text) => {
            &&& r is Done
            &&& st.text() == text
            &&& st.request() is None
        },
        ImportScan::Failed(e) => r matches ImportStep::Failed(x) && x@ == e,
        ImportScan::Aborted => r is Aborted,
    }
}

impl ImportExpander {
    /// Scans from the current position until a file is needed or the text is done.
    fn scan(&mut self) -> (r: ImportStep)
        requires
            old(self).wf(),
        ensures
            step_matches(
                import_scan(old(self).text(), old(self).position(), old(self).imported_paths()),
                r,
                *final(self),
            ),
            final(self).imported_paths() == old(self).imported_paths(),
    {
        let ghost imp = self.imported_paths();
        let ghost goal = import_scan(self.text(), self.position(), imp);
        let mut src: Vec<char> = Vec::new();
        std::mem::swap(&mut src, &mut self.src);
        let mut tk = Tokenizer { pos: self.pos, src, toks: Vec::new() };
        self.pending = None;
        while !tk.at_end()
            invariant
                tk.wf(),
                self.imported_paths() == imp,
                imp == old(self).imported_paths(),
                goal == import_scan(old(self).text(), old(self).position(), old(self).imported_paths()),
                self.pending is None,
                import_scan(tk.src@, tk.pos as int, imp) == goal,
            decreases tk.src.len() - tk.pos,
        {
            let ghost s = tk.src@;
            let ghost pos0 = tk.pos as int;
            tk.skip_ws();
            proof {
                lemma_ws_end_at_least(s, pos0);
            }
            if tk.starts_with(&vec!['i', 'm', 'p', 'o', 'r', 't']) {
                let stmt_start = tk.pos;
                if 6 >= tk.src.len() - tk.pos {
                    self.pos = tk.pos;
                    self.src = tk.src;
                    return ImportStep::Aborted;
                }
                tk.advance_n(6);
                tk.skip_ws();
                let q = tk.pos;
                proof {
                    lemma_ws_end_at_least(s, stmt_start + 6);
                }
                let path: String;
                if tk.peek() == '"' {
                    tk.advance();
                    let ps = tk.pos;
                    while tk.peek() != '"' && !tk.at_end()
                        invariant
                            tk.wf(),
                            tk.src@ == s,
                            ps <= tk.pos,
                            ps == q + 1,
                            quote_end(s, ps as int) == quote_end(s, tk.pos as int),
                        decreases tk.src.len() - tk.pos,
                    {
                        tk.advance();
                    }
                    if tk.at_end() {
                        self.pos = tk.pos;
                    self.src = tk.src;
                        return ImportStep::Aborted;
                    }
                    path = tk.text(ps, tk.pos);
                    tk.advance();
                } else if tk.is_ident() {
                    let name = match tk.parse_idname() {
                        Ok(n) => n,
                        Err(e) => {
                            self.pos = tk.pos;
                    self.src = tk.src;
                            return ImportStep::Failed(e);
                        },
                    };
                    let mut p = name;
                    push_char(&mut p, '.');
                    push_char(&mut p, 'f');
                    push_char(&mut p, '4');
                    push_char(&mut p, 'n');
                    push_char(&mut p, 'a');
                    proof {
                        lemma_word_end_le(s, q as int);
                    }
                    assert(p@ =~= s.subrange(q as int, tk.pos as int) + f4na_ext());
                    path = p;
                } else {
                    self.pos = tk.pos;
                    self.src = tk.src;
                    return ImportStep::Failed(LexerError::ExpectedIdentifier);
                }
                let after = tk.pos;
                assert(import_path(s, q as int) == PathView::Path(path@, after as int));
                if self.already_imported(&path) {
                    if tk.peek() != ';' {
                        self.pos = tk.pos;
                    self.src = tk.src;
                        let mut semi = String::new();
                        push_char(&mut semi, ';');
                        return ImportStep::Failed(LexerError::ExpectedToken(semi));
                    }
                    tk.advance();
                    let empty: Vec<char> = Vec::new();
                    let drained = splice_exec(&tk.src, stmt_start, tk.pos, &empty);
                    tk.src = drained;
                    tk.pos = stmt_start;
                } else {
                    self.pos = tk.pos;
                    self.src = tk.src;
                    self.pending = Some(Pending { start: stmt_start, after, path: path.clone() });
                    return ImportStep::NeedFile(path);
                }
            } else {
                tk.advance();
            }
        }
        self.pos = tk.pos;
                        self.src = tk.src;
        ImportStep::Done
    }
}

impl ImportExpander {
    /// Scans for the next import statement: asks for a file, reports the end of the
    /// expansion, or fails.
    pub fn next_action(&mut self) -> (r: ImportStep)
        requires
            old(self).wf(),
            old(self).request() is None,
        ensures
            step_matches(
                import_scan(old(self).text(), old(self).position(), old(self).imported_paths()),
                r,
                *final(self),
            ),
            final(self).imported_paths() == old(self).imported_paths(),
    {
        self.scan()
    }

    /// Answers the file request in flight with the file's text, or `None` where it
    /// could not be read, and scans on.
    pub fn file_contents(&mut self, contents: Option<Vec<char>>) -> (r: ImportStep)
        requires
            old(self).wf(),
            old(self).request() is Some,
        ensures
            ({
                let (start, after, path) = old(self).request()->Some_0;
                let text = old(self).text();
                let imp = old(self).imported_paths();
                let cv = match contents {
                    Some(c) => Some(c@),
                    None => None::<Seq<char>>,
                };
                &&& step_matches(import_resume(text, start, after, path, imp, cv), r, *final(self))
                &&& final(self).imported_paths() == if contents is Some && char_at(text, after) == ';' {
                    imp.push(path)
                } else {
                    imp
                }
            }),
    {
        let pending = self.pending.take().unwrap();
        match contents {
            None => ImportStep::Failed(LexerError::FileNotFound(pending.path)),
            Some(text) => {
                if pending.after >= self.src.len() || self.src[pending.after] != ';' {
                    let mut semi = String::new();
                    push_char(&mut semi, ';');
                    return ImportStep::Failed(LexerError::ExpectedToken(semi));
                }
                let mut mid = text;
                mid.push('\n');
                let spliced = splice_exec(&self.src, pending.start, pending.after + 1, &mid);
                self.src = spliced;
                self.pos = pending.start;
                let ghost old_imp = self.imported_paths();
                self.imported.push(pending.path);
                assert(self.imported_paths() =~= old_imp.push(old(self).request()->Some_0.2));
                self.scan()
            },
        }
    }
}

proof fn lemma_word_end_le(s: Seq<char>, i: int)
    requires
        0 <= i <= s.len(),
    ensures
        i <= word_end(s, i) <= s.len(),
    decreases s.len() - i,
{
    if i < s.len() && crate::tokenizer::is_word_char(s[i]) {
        lemma_word_end_le(s, i + 1);
    }
}

proof fn lemma_ws_end_at_least(s: Seq<char>, i: int)
    requires
        0 <= i <= s.len(),
    ensures
        i <= ws_end(s, i) <= s.len(),
    decreases s.len() - i,
{
    if i < s.len() && is_ws(s[i]) {
        lemma_ws_end_at_least(s, i + 1);
    }
}

} // verus!

verus! {

/// A file is requested only if its path was not imported before, so no file is
/// read twice during one expansion.
pub proof fn law_no_file_read_twice(s: Seq<char>, pos: int, imported: Seq<Seq<char>>)
    ensures
        import_scan(s, pos, imported) matches ImportScan::NeedFile { path, .. } ==> !imported.contains(
            path,
        ),
    decreases s.len() - pos,
{
    if 0 <= pos < s.len() {
        let p = ws_end(s, pos);
        if word_at(s, p, w_import()) {
            if p + 6 < s.len() {
                if let PathView::Path(path, after) = import_path(s, ws_end(s, p + 6)) {
                    if imported.contains(path) && char_at(s, after) == ';' && pos <= p < after < s.len() {
                        law_no_file_read_twice(splice(s, p, after + 1, Seq::empty()), p, imported);
                    }
                }
            }
        } else if p < s.len() && p >= pos {
            law_no_file_read_twice(s, p + 1, imported);
        }
    }
}

/// A text in which the word `import` does not occur is left as it is.
pub proof fn law_text_without_imports_unchanged(s: Seq<char>, pos: int, imported: Seq<Seq<char>>)
    requires
        0 <= pos,
        forall|i: int| pos <= i < s.len() ==> !word_at(s, i, w_import()),
    ensures
        import_scan(s, pos, imported) == ImportScan::Done(s),
    decreases s.len() - pos,
{
    if pos < s.len() {
        let p = ws_end(s, pos);
        lemma_ws_end_at_least(s, pos);
        if p < s.len() {
            law_text_without_imports_unchanged(s, p + 1, imported);
        }
    }
}

/// The text `pre` + `import name;` + `rest`.
pub open spec fn import_by_name(pre: Seq<char>, name: Seq<char>, rest: Seq<char>) -> Seq<char> {
    pre + w_import() + seq![' '] + name + seq![';'] + rest
}

/// The text `pre` + `import "path";` + `rest`.
pub open spec fn import_by_path(pre: Seq<char>, path: Seq<char>, rest: Seq<char>) -> Seq<char> {
    pre + w_import() + seq![' ', '"'] + path + seq!['"', ';'] + rest
}

/// `name` can follow `import`: an identifier that is no keyword.
pub open spec fn import_name_ok(name: Seq<char>) -> bool {
    &&& name.len() > 0
    &&& (is_alpha(name[0]) || name[0] == '_')
    &&& forall|i: int| 0 <= i < name.len() ==> is_word_char(#[trigger] name[i])
    &&& !keyword_at(name + seq![';'], 0)
}

/// Whether a keyword stands at `i` depends only on the word there, when a `;`
/// ends it.
proof fn lemma_kw_local(s: Seq<char>, i: int, x: Seq<char>, w: Seq<char>)
    requires
        0 <= i,
        i + x.len() <= s.len(),
        x.len() >= 1,
        x[x.len() - 1] == ';',
        s.subrange(i, i + x.len()) == x,
        forall|k: int| 0 <= k < w.len() ==> is_alpha(#[trigger] w[k]),
    ensures
        kw_at(s, i, w) == kw_at(x, 0, w),
{
    let n = x.len() - 1;
    assert forall|k: int| 0 <= k < x.len() implies #[trigger] s[i + k] == x[k] by {
        assert(s.subrange(i, i + x.len())[k] == s[i + k]);
    }
    if w.len() <= n {
        assert(s.subrange(i, i + w.len()) =~= x.subrange(0, w.len() as int));
        assert(char_at(s, i + w.len()) == x[w.len() as int]);
    } else {
        if word_at(s, i, w) {
            assert(s.subrange(i, i + w.len())[n] == s[i + n]);
            assert(false);
        }
        if word_at(x, 0, w) {
            assert(x.subrange(0, w.len() as int)[n] == x[n]);
            assert(false);
        }
    }
}

proof fn lemma_keyword_local(s: Seq<char>, i: int, name: Seq<char>)
    requires
        0 <= i,
        i + name.len() + 1 <= s.len(),
        s.subrange(i, i + name.len() + 1) == name + seq![';'],
    ensures
        keyword_at(s, i) == keyword_at(name + seq![';'], 0),
{
    let x = name + seq![';'];
    assert(x[x.len() - 1] == ';');
    lemma_kw_local(s, i, x, w_fn());
    lemma_kw_local(s, i, x, w_ret());
    lemma_kw_local(s, i, x, w_elif());
    lemma_kw_local(s, i, x, w_else());
    lemma_kw_local(s, i, x, w_if());
    lemma_kw_local(s, i, x, w_let());
    lemma_kw_local(s, i, x, w_true());
    lemma_kw_local(s, i, x, w_false());
    lemma_kw_local(s, i, x, w_while());
}

proof fn lemma_word_end_to(s: Seq<char>, i: int, e: int)
    requires
        0 <= i <= e < s.len(),
        forall|j: int| i <= j < e ==> is_word_char(#[trigger] s[j]),
        !is_word_char(s[e]),
    ensures
        word_end(s, i) == e,
    decreases e - i,
{
    if i < e {
        lemma_word_end_to(s, i + 1, e);
    }
}

proof fn lemma_quote_end_to(s: Seq<char>, i: int, e: int)
    requires
        0 <= i <= e < s.len(),
        forall|j: int| i <= j < e ==> #[trigger] s[j] != '"',
        s[e] == '"',
    ensures
        quote_end(s, i) == e,
    decreases e - i,
{
    if i < e {
        lemma_quote_end_to(s, i + 1, e);
    }
}

proof fn lemma_import_word(s: Seq<char>, p: int)
    requires
        0 <= p,
        p + 7 < s.len(),
        s.subrange(p, p + 7) == w_import() + seq![' '],
    ensures
        word_at(s, p, w_import()),
        ws_end(s, p) == p,
        ws_end(s, p + 6) == ws_end(s, p + 7),
{
    assert(s[p] == 'i') by {
        assert(s.subrange(p, p + 7)[0] == 'i');
    }
    assert(s[p + 6] == ' ') by {
        assert(s.subrange(p, p + 7)[6] == ' ');
    }
    assert(s.subrange(p, p + 6) =~= w_import()) by {
        assert forall|k: int| 0 <= k < 6 implies s.subrange(p, p + 6)[k] == w_import()[k] by {
            assert(s.subrange(p, p + 7)[k] == s[p + k]);
        }
    }
}

/// An `import name;` statement whose file was not read yet asks for `name.f4na`;
/// given the file's text, the statement is replaced by that text and a newline,
/// and the scan goes on at the start of the inserted text.
#[verifier::spinoff_prover]
#[verifier::rlimit(50)]
pub proof fn law_import_by_name_splices_file(
    pre: Seq<char>,
    name: Seq<char>,
    rest: Seq<char>,
    imported: Seq<Seq<char>>,
    contents: Seq<char>,
)
    requires
        import_name_ok(name),
        !imported.contains(name + f4na_ext()),
    ensures
        ({
            let s = import_by_name(pre, name, rest);
            let p = pre.len() as int;
            let after = p + 7 + name.len();
            let path = name + f4na_ext();
            &&& import_scan(s, p, imported) == (ImportScan::NeedFile { text: s, start: p, after, path })
            &&& import_resume(s, p, after, path, imported, Some(contents)) == import_scan(
                pre + contents.push('\n') + rest,
                p,
                imported.push(path),
            )
        }),
{
    let s = import_by_name(pre, name, rest);
    let p = pre.len() as int;
    let q = p + 7;
    let after = q + name.len();
    assert forall|k: int| 0 <= k < name.len() implies s[q + k] == name[k] by {}
    assert(s[after] == ';');
    assert(s.subrange(q, after + 1) =~= name + seq![';']);
    lemma_keyword_local(s, q, name);
    assert(s.subrange(p, p + 7) =~= w_import() + seq![' ']);
    lemma_import_word(s, p);
    assert(ws_end(s, q) == q) by {
        assert(s[q] == name[0]);
    }
    assert forall|j: int| q <= j < after implies is_word_char(#[trigger] s[j]) by {
        assert(s[j] == name[j - q]);
    }
    lemma_word_end_to(s, q, after);
    assert(char_at(s, q) == name[0]);
    assert(ident_at(s, q));
    assert(s.subrange(q, after) =~= name);
    assert(splice(s, p, after + 1, contents.push('\n')) =~= pre + contents.push('\n') + rest);
}

/// The same for `import "path";`: the path is used as written.
#[verifier::spinoff_prover]
#[verifier::rlimit(50)]
pub proof fn law_import_by_path_splices_file(
    pre: Seq<char>,
    path: Seq<char>,
    rest: Seq<char>,
    imported: Seq<Seq<char>>,
    contents: Seq<char>,
)
    requires
        forall|i: int| 0 <= i < path.len() ==> #[trigger] path[i] != '"',
        !imported.contains(path),
    ensures
        ({
            let s = import_by_path(pre, path, rest);
            let p = pre.len() as int;
            let after = p + 9 + path.len();
            &&& import_scan(s, p, imported) == (ImportScan::NeedFile { text: s, start: p, after, path })
            &&& import_resume(s, p, after, path, imported, Some(contents)) == import_scan(
                pre + contents.push('\n') + rest,
                p,
                imported.push(path),
            )
        }),
{
    let s = import_by_path(pre, path, rest);
    let p = pre.len() as int;
    let q = p + 7;
    let e = q + 1 + path.len();
    assert forall|k: int| 0 <= k < path.len() implies s[q + 1 + k] == path[k] by {}
    assert(s[e] == '"');
    assert(s[e + 1] == ';');
    assert(s.subrange(p, p + 7) =~= w_import() + seq![' ']);
    lemma_import_word(s, p);
    assert(ws_end(s, q) == q) by {
        assert(s[q] == '"');
    }
    assert forall|j: int| q + 1 <= j < e implies #[trigger] s[j] != '"' by {
        assert(s[j] == path[j - q - 1]);
    }
    lemma_quote_end_to(s, q + 1, e);
    assert(s.subrange(q + 1, e) =~= path);
    assert(splice(s, p, e + 2, contents.push('\n')) =~= pre + contents.push('\n') + rest);
}

/// An `import name;` statement whose file was read before is deleted, and the scan
/// goes on where it stood: the file is not inserted twice.
#[verifier::spinoff_prover]
#[verifier::rlimit(50)]
pub proof fn law_import_again_is_dropped(
    pre: Seq<char>,
    name: Seq<char>,
    rest: Seq<char>,
    imported: Seq<Seq<char>>,
)
    requires
        import_name_ok(name),
        imported.contains(name + f4na_ext()),
    ensures
        import_scan(import_by_name(pre, name, rest), pre.len() as int, imported) == import_scan(
            pre + rest,
            pre.len() as int,
            imported,
        ),
{
    let s = import_by_name(pre, name, rest);
    let p = pre.len() as int;
    let q = p + 7;
    let after = q + name.len();
    assert forall|k: int| 0 <= k < name.len() implies s[q + k] == name[k] by {}
    assert(s[after] == ';');
    assert(s.subrange(q, after + 1) =~= name + seq![';']);
    lemma_keyword_local(s, q, name);
    assert(s.subrange(p, p + 7) =~= w_import() + seq![' ']);
    lemma_import_word(s, p);
    assert(ws_end(s, q) == q) by {
        assert(s[q] == name[0]);
    }
    assert forall|j: int| q <= j < after implies is_word_char(#[trigger] s[j]) by {
        assert(s[j] == name[j - q]);
    }
    lemma_word_end_to(s, q, after);
    assert(char_at(s, q) == name[0]);
    assert(s.subrange(q, after) =~= name);
    assert(splice(s, p, after + 1, Seq::empty()) =~= pre + rest);
}

/// The word `import` occurs somewhere in `s`.
pub open spec fn mentions_import(s: Seq<char>) -> bool {
    exists|i: int| word_at(s, i, w_import())
}

proof fn lemma_ws_end_stops(s: Seq<char>, pos: int, q: int)
    requires
        0 <= pos <= q < s.len(),
        !is_ws(s[q]),
    ensures
        pos <= ws_end(s, pos) <= q,
    decreases q - pos,
{
    if pos < q && is_ws(s[pos]) {
        lemma_ws_end_stops(s, pos + 1, q);
    }
}

/// Scanning passes over a stretch without `import` and goes on as from its end.
proof fn lemma_scan_skips(s: Seq<char>, pos: int, q: int, imported: Seq<Seq<char>>)
    requires
        0 <= pos <= q < s.len(),
        !is_ws(s[q]),
        forall|i: int| pos <= i < q ==> !word_at(s, i, w_import()),
    ensures
        import_scan(s, pos, imported) == import_scan(s, q, imported),
    decreases q - pos,
{
    if pos < q {
        lemma_ws_end_stops(s, pos, q);
        let p = ws_end(s, pos);
        assert(ws_end(s, q) == q);
        if p < q {
            lemma_scan_skips(s, p + 1, q, imported);
        }
    }
}

/// No `import` is made across the newline that joins two texts without one.
proof fn lemma_join_mentions_no_import(t: Seq<char>, r: Seq<char>)
    requires
        !mentions_import(t),
        !mentions_import(r),
    ensures
        !mentions_import(t + seq!['\n'] + r),
{
    let s = t + seq!['\n'] + r;
    let w = w_import();
    let l = t.len() as int;
    assert forall|i: int| !word_at(s, i, w) by {
        if word_at(s, i, w) {
            if i + 6 <= l {
                assert(t.subrange(i, i + 6) =~= s.subrange(i, i + 6));
                assert(word_at(t, i, w));
            } else if i >= l + 1 {
                assert(r.subrange(i - l - 1, i - l + 5) =~= s.subrange(i, i + 6));
                assert(word_at(r, i - l - 1, w));
            } else {
                assert(s.subrange(i, i + 6)[l - i] == s[l]);
                assert(s[l] == '\n');
            }
        }
    }
}

/// A whole expansion: with `name.f4na` holding `t`, the text `import name;`
/// followed by `r` (neither `t` nor `r` holding `import`) asks for that file once
/// and expands to `t`, a newline and `r`.
pub proof fn law_import_expands_to_file_text(name: Seq<char>, t: Seq<char>, r: Seq<char>)
    requires
        import_name_ok(name),
        !mentions_import(t),
        !mentions_import(r),
    ensures
        ({
            let s = import_by_name(Seq::empty(), name, r);
            let after = 7 + name.len() as int;
            let path = name + f4na_ext();
            &&& import_scan(s, 0, Seq::empty()) == (ImportScan::NeedFile { text: s, start: 0, after, path })
            &&& import_resume(s, 0, after, path, Seq::empty(), Some(t)) == ImportScan::Done(t + seq!['\n'] + r)
        }),
{
    let path = name + f4na_ext();
    law_import_by_name_splices_file(Seq::empty(), name, r, Seq::empty(), t);
    let joined = t + seq!['\n'] + r;
    assert(Seq::<char>::empty() + t.push('\n') + r =~= joined);
    lemma_join_mentions_no_import(t, r);
    law_text_without_imports_unchanged(joined, 0, Seq::<Seq<char>>::empty().push(path));
}

/// The same with `import "path";`: the path is used as written.
pub proof fn law_import_path_expands_to_file_text(path: Seq<char>, t: Seq<char>, r: Seq<char>)
    requires
        forall|i: int| 0 <= i < path.len() ==> #[trigger] path[i] != '"',
        !mentions_import(t),
        !mentions_import(r),
    ensures
        ({
            let s = import_by_path(Seq::empty(), path, r);
            let after = 9 + path.len() as int;
            &&& import_scan(s, 0, Seq::empty()) == (ImportScan::NeedFile { text: s, start: 0, after, path })
            &&& import_resume(s, 0, after, path, Seq::empty(), Some(t)) == ImportScan::Done(t + seq!['\n'] + r)
        }),
{
    law_import_by_path_splices_file(Seq::empty(), path, r, Seq::empty(), t);
    let joined = t + seq!['\n'] + r;
    assert(Seq::<char>::empty() + t.push('\n') + r =~= joined);
    lemma_join_mentions_no_import(t, r);
    law_text_without_imports_unchanged(joined, 0, Seq::<Seq<char>>::empty().push(path));
}

/// Importing the same file twice reads it once: `import name;import name;` and
/// `r` expand, with `name.f4na` holding `t`, to what `import name;` and `r`
/// expand to, `t`, a newline and `r`.
#[verifier::spinoff_prover]
#[verifier::rlimit(50)]
pub proof fn law_import_twice_reads_once(name: Seq<char>, t: Seq<char>, r: Seq<char>)
    requires
        import_name_ok(name),
        !mentions_import(t),
        !mentions_import(r),
    ensures
        ({
            let s = import_by_name(Seq::empty(), name, import_by_name(Seq::empty(), name, r));
            let after = 7 + name.len() as int;
            let path = name + f4na_ext();
            &&& import_scan(s, 0, Seq::empty()) == (ImportScan::NeedFile { text: s, start: 0, after, path })
            &&& import_resume(s, 0, after, path, Seq::empty(), Some(t)) == ImportScan::Done(t + seq!['\n'] + r)
        }),
{
    let path = name + f4na_ext();
    let once = import_by_name(Seq::empty(), name, r);
    let imp = Seq::<Seq<char>>::empty().push(path);
    law_import_by_name_splices_file(Seq::empty(), name, once, Seq::empty(), t);
    let pre = t.push('\n');
    let s2 = import_by_name(pre, name, r);
    assert(Seq::<char>::empty() + t.push('\n') + once =~= s2);
    let q = pre.len() as int;
    assert(s2[q] == 'i');
    assert forall|i: int| 0 <= i < q implies !word_at(s2, i, w_import()) by {
        if word_at(s2, i, w_import()) {
            if i + 6 <= t.len() {
                assert(t.subrange(i, i + 6) =~= s2.subrange(i, i + 6));
                assert(word_at(t, i, w_import()));
            } else {
                assert(s2.subrange(i, i + 6)[t.len() - i] == s2[t.len() as int]);
                assert(s2[t.len() as int] == '\n');
            }
        }
    }
    lemma_scan_skips(s2, 0, q, imp);
    assert(imp.contains(path)) by {
        assert(imp[0] == path);
    }
    law_import_again_is_dropped(pre, name, r, imp);
    let joined = t + seq!['\n'] + r;
    assert(pre + r =~= joined);
    lemma_join_mentions_no_import(t, r);
    law_text_without_imports_unchanged(joined, q, imp);
}

} // verus!
