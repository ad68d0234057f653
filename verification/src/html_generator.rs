//! Planning the per-row output files: each table row is rendered through the
//! compiled template and paired with its derived file name.

use vstd::prelude::*;
use vstd::string::StrSliceExecFns;
use vstd::string::StringExecFns;
use crate::csv_reader::file_name_col;
use crate::mapping::RowMapping;
use crate::template::CompiledTemplate;
use crate::template::PieceV;
use crate::template::RenderError;
use crate::template::TemplateError;
use crate::template::render_pieces;
use crate::template::spec_pieces;

verus! {

/// The `.html` suffix every derived file name ends in.
pub open spec fn html_suffix() -> Seq<char> {
    seq!['.', 'h', 't', 'm', 'l']
}

/// A row's output file name: its `file_name` field, with `.html` appended
/// unless the field already ends in it.
pub open spec fn spec_derived_name(f: Seq<char>) -> Seq<char> {
    if f.len() >= 5 && f.subrange(f.len() - 5, f.len() as int) == html_suffix() {
        f
    } else {
        f + html_suffix()
    }
}

/// Derives the output file name from a row's `file_name` field.
pub fn derived_file_name(name: &str) -> (r: String)
    ensures
        r@ == spec_derived_name(name@),
{
    let n = name.unicode_len();
    let has = n >= 5 && name.get_char(n - 5) == '.' && name.get_char(n - 4) == 'h' && name.get_char(
        n - 3,
    ) == 't' && name.get_char(n - 2) == 'm' && name.get_char(n - 1) == 'l';
    if has {
        proof {
            assert(name@.subrange(n - 5, n as int) =~= html_suffix());
        }
        name.to_owned()
    } else {
        proof {
            reveal_strlit(".html");
            assert(".html"@ =~= html_suffix());
            if n >= 5 {
                assert(name@.subrange(n - 5, n as int) != html_suffix()) by {
                    if name@.subrange(n - 5, n as int) == html_suffix() {
                        assert(name@.subrange(n - 5, n as int)[0] == '.');
                        assert(name@.subrange(n - 5, n as int)[1] == 'h');
                        assert(name@.subrange(n - 5, n as int)[2] == 't');
                        assert(name@.subrange(n - 5, n as int)[3] == 'm');
                        assert(name@.subrange(n - 5, n as int)[4] == 'l');
                    }
                }
            }
        }
        let r = name.to_owned().concat(".html");
        proof {
            assert(r@ == name@ + html_suffix());
        }
        r
    }
}

/// One planned output file: the path to write and the rendered contents.
pub struct RenderedFile {
    pub path: String,
    pub contents: String,
}

impl View for RenderedFile {
    type V = (Seq<char>, Seq<char>);

    open spec fn view(&self) -> (Seq<char>, Seq<char>) {
        (self.path@, self.contents@)
    }
}

/// The (path, contents) views of a list of planned files.
pub open spec fn files_view(fs: Seq<RenderedFile>) -> Seq<(Seq<char>, Seq<char>)> {
    fs.map_values(|f: RenderedFile| f@)
}

/// The map views of a list of row mappings.
pub open spec fn maps_of(rs: Seq<RowMapping>) -> Seq<Map<Seq<char>, Seq<char>>> {
    rs.map_values(|r: RowMapping| r@)
}

/// What generation plans for the given rows, in row order: for each row the
/// rendered contents under `outdir/name`, where `name` is derived from the
/// row's `file_name` field.  `None` when a row fails to render or lacks
/// `file_name`; rendering is tried before the field is read, so a rendering
/// error is reported first.
pub open spec fn spec_generate(
    recs: Seq<Map<Seq<char>, Seq<char>>>,
    ps: Seq<PieceV>,
    outdir: Seq<char>,
) -> Option<Seq<(Seq<char>, Seq<char>)>>
    decreases recs.len(),
{
    if recs.len() == 0 {
        Some(Seq::empty())
    } else {
        match render_pieces(ps, recs[0]) {
            None => None,
            Some(html) => if !recs[0].contains_key(file_name_col()) {
                None
            } else {
                let path = outdir + seq!['/'] + spec_derived_name(recs[0][file_name_col()]);
                match spec_generate(recs.drop_first(), ps, outdir) {
                    None => None,
                    Some(fs) => Some(seq![(path, html)] + fs),
                }
            },
        }
    }
}

/// The contents on disk after the planned files are written in order, each
/// write overwriting any earlier file of the same path.
pub open spec fn written_files(fs: Seq<(Seq<char>, Seq<char>)>) -> Map<Seq<char>, Seq<char>>
    decreases fs.len(),
{
    if fs.len() == 0 {
        Map::empty()
    } else {
        written_files(fs.drop_last()).insert(fs.last().0, fs.last().1)
    }
}

/// Later writes win: if entry `j` is the last with its path, that path ends
/// up holding entry `j`'s contents.
pub proof fn lemma_last_writer_wins(fs: Seq<(Seq<char>, Seq<char>)>, j: int)
    requires
        0 <= j < fs.len(),
        forall|k: int| j < k < fs.len() ==> (#[trigger] fs[k]).0 != fs[j].0,
    ensures
        written_files(fs).contains_key(fs[j].0),
        written_files(fs)[fs[j].0] == fs[j].1,
    decreases fs.len(),
{
    if j == fs.len() - 1 {
    } else {
        assert(fs.drop_last()[j] == fs[j]);
        lemma_last_writer_wins(fs.drop_last(), j);
        assert(fs.last() == fs[fs.len() - 1]);
    }
}

/// Each planned file corresponds to the row in the same position: its
/// contents are that row's render, its path that row's derived name under
/// the output directory.
pub proof fn lemma_generate_entries(
    recs: Seq<Map<Seq<char>, Seq<char>>>,
    ps: Seq<PieceV>,
    outdir: Seq<char>,
    fs: Seq<(Seq<char>, Seq<char>)>,
)
    requires
        spec_generate(recs, ps, outdir) == Some(fs),
    ensures
        fs.len() == recs.len(),
        forall|k: int|
            0 <= k < recs.len() ==> render_pieces(ps, #[trigger] recs[k]) == Some(fs[k].1)
                && recs[k].contains_key(file_name_col()) && fs[k].0 == outdir + seq!['/']
                + spec_derived_name(recs[k][file_name_col()]),
    decreases recs.len(),
{
    if recs.len() > 0 {
        let rest = spec_generate(recs.drop_first(), ps, outdir).unwrap();
        assert(spec_generate(recs.drop_first(), ps, outdir) == Some(rest));
        lemma_generate_entries(recs.drop_first(), ps, outdir, rest);
        assert(fs.drop_first() =~= rest);
        assert forall|k: int|
            0 <= k < recs.len() implies render_pieces(ps, #[trigger] recs[k]) == Some(fs[k].1)
            && recs[k].contains_key(file_name_col()) && fs[k].0 == outdir + seq!['/']
            + spec_derived_name(recs[k][file_name_col()]) by {
            if k > 0 {
                assert(recs.drop_first()[k - 1] == recs[k]);
                assert(rest[k - 1] == fs[k]);
            }
        }
    }
}

/// Row order determinism: when rows `i` and `j` derive the same output path
/// and no later row does, the path finally holds row `j`'s render — the
/// later row wins.
pub proof fn lemma_row_order_determinism(
    recs: Seq<Map<Seq<char>, Seq<char>>>,
    ps: Seq<PieceV>,
    outdir: Seq<char>,
    fs: Seq<(Seq<char>, Seq<char>)>,
    i: int,
    j: int,
)
    requires
        spec_generate(recs, ps, outdir) == Some(fs),
        0 <= i < j < fs.len(),
        fs[i].0 == fs[j].0,
        forall|k: int| j < k < fs.len() ==> (#[trigger] fs[k]).0 != fs[j].0,
    ensures
        written_files(fs).contains_key(fs[j].0),
        written_files(fs)[fs[j].0] == fs[j].1,
        render_pieces(ps, recs[j]) == Some(fs[j].1),
    decreases recs.len(),
{
    lemma_generate_entries(recs, ps, outdir, fs);
    lemma_last_writer_wins(fs, j);
}

/// Generation is a pure function of the rows, the compiled template and the
/// output directory: equal inputs plan byte-identical output files, so
/// repeating a run rewrites every file with the same contents.
pub proof fn lemma_generate_idempotent(
    recs1: Seq<Map<Seq<char>, Seq<char>>>,
    ps1: Seq<PieceV>,
    outdir1: Seq<char>,
    recs2: Seq<Map<Seq<char>, Seq<char>>>,
    ps2: Seq<PieceV>,
    outdir2: Seq<char>,
)
    requires
        recs1 == recs2,
        ps1 == ps2,
        outdir1 == outdir2,
    ensures
        spec_generate(recs1, ps1, outdir1) == spec_generate(recs2, ps2, outdir2),
{
}

/// Renders every row of a table through one compiled template and pairs each
/// with its output path.
pub struct HtmlGenerator {
    records: Vec<RowMapping>,
    template: CompiledTemplate,
    output: String,
}

impl HtmlGenerator {
    /// The map views of the rows to generate from, in row order.
    pub open spec fn records_view(&self) -> Seq<Map<Seq<char>, Seq<char>>> {
        maps_of(self.spec_records())
    }

    pub closed spec fn spec_records(&self) -> Seq<RowMapping> {
        self.records@
    }

    /// The compiled template's pieces.
    pub closed spec fn template_view(&self) -> Seq<PieceV> {
        self.template.template_view()
    }

    /// The output directory.
    pub closed spec fn output_view(&self) -> Seq<char> {
        self.output@
    }

    /// Compiles `template_text` once and stores the rows and the output
    /// directory; fails exactly when the template is malformed.
    pub fn new(template_text: &str, records: Vec<RowMapping>, output: String) -> (r: Result<
        HtmlGenerator,
        TemplateError,
    >)
        ensures
            match r {
                Ok(g) => spec_pieces(template_text@, 0) == Some(g.template_view())
                    && g.spec_records() == records@ && g.output_view() == output@,
                Err(_) => spec_pieces(template_text@, 0) is None,
            },
    {
        match CompiledTemplate::compile(template_text) {
            Err(e) => Err(e),
            Ok(template) => Ok(HtmlGenerator { records, template, output }),
        }
    }

    /// Renders the stored template against one row mapping.
    pub fn format_html(&self, contact: &RowMapping) -> (r: Result<String, RenderError>)
        ensures
            match r {
                Ok(out) => render_pieces(self.template_view(), contact@) == Some(out@),
                Err(_) => render_pieces(self.template_view(), contact@) is None,
            },
    {
        self.template.render(contact)
    }

    /// Plans the output files, one per row in row order; fails exactly when
    /// a row fails to render or lacks the `file_name` field.
    pub fn generate(&self) -> (r: Result<Vec<RenderedFile>, RenderError>)
        ensures
            match r {
                Ok(fs) => spec_generate(self.records_view(), self.template_view(), self.output_view())
                    == Some(files_view(fs@)),
                Err(_) => spec_generate(
                    self.records_view(),
                    self.template_view(),
                    self.output_view(),
                ) is None,
            },
    {
        match self.generate_from(0) {
            Some(fs) => {
                proof {
                    assert(self.records_view().skip(0) =~= self.records_view());
                }
                Ok(fs)
            },
            None => {
                proof {
                    assert(self.records_view().skip(0) =~= self.records_view());
                }
                Err(RenderError)
            },
        }
    }

    fn generate_from(&self, i: usize) -> (r: Option<Vec<RenderedFile>>)
        requires
            i <= self.spec_records().len(),
        ensures
            match r {
                Some(fs) => spec_generate(
                    self.records_view().skip(i as int),
                    self.template_view(),
                    self.output_view(),
                ) == Some(files_view(fs@)),
                None => spec_generate(
                    self.records_view().skip(i as int),
                    self.template_view(),
                    self.output_view(),
                ) is None,
            },
        decreases self.spec_records().len() - i,
    {
        let ghost tail = self.records_view().skip(i as int);
        if i >= self.records.len() {
            let fs: Vec<RenderedFile> = Vec::new();
            proof {
                assert(tail =~= Seq::<Map<Seq<char>, Seq<char>>>::empty());
                assert(files_view(fs@) =~= Seq::<(Seq<char>, Seq<char>)>::empty());
            }
            return Some(fs);
        }
        proof {
            assert(tail[0] == self.records_view()[i as int]);
            assert(tail[0] == self.records@[i as int]@);
            assert(tail.drop_first() =~= self.records_view().skip(i as int + 1));
        }
        let rec = &self.records[i];
        let html = match self.template.render(rec) {
            Ok(out) => out,
            Err(_) => {
                return None;
            },
        };
        let name = match rec.get("file_name") {
            Some(v) => v,
            None => {
                return None;
            },
        };
        let slug = derived_file_name(name.as_str());
        let path = self.output.clone().concat("/").concat(slug.as_str());
        proof {
            reveal_strlit("/");
            assert("/"@ =~= seq!['/']);
            assert(path@ == self.output_view() + seq!['/'] + spec_derived_name(
                tail[0][file_name_col()],
            ));
        }
        match self.generate_from(i + 1) {
            None => None,
            Some(rest) => {
                let mut fs = rest;
                let ghost old_fs = files_view(fs@);
                let file = RenderedFile { path, contents: html };
                let ghost fv = file@;
                fs.insert(0, file);
                proof {
                    assert(files_view(fs@) =~= seq![fv] + old_fs);
                }
                Some(fs)
            },
        }
    }
}

} // verus!
