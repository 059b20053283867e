use vstd::prelude::*;

use crate::error::EngineError;
use crate::model::{
    assignment_of, warning_of, AssignModel, Assignement, Deny, MetaData, WarnModel, Warning,
};
use crate::parser::{block_view, blocks_model, lemma_block_view_blocks, BlockContent, BlockModel, Bracketed, ContentModel};
use crate::text::{has_prefix, lines_of, split_lines, starts_with, strings_model, trim_of, trim_str};

verus! {

/// The assignments on lines `ls` from line `i` on, appended to `acc`.
pub open spec fn assignments_run(ls: Seq<Seq<char>>, i: int, acc: Seq<AssignModel>) -> Result<Seq<AssignModel>, EngineError>
    decreases ls.len() - i,
{
    if i < 0 || i >= ls.len() {
        Ok(acc)
    } else {
        match assignment_of(ls[i]) {
            Ok(a) => assignments_run(ls, i + 1, acc.push(a)),
            Err(e) => Err(e),
        }
    }
}

/// The assignments written one per line in `t`.
pub open spec fn assignments_of(t: Seq<char>) -> Result<Seq<AssignModel>, EngineError> {
    assignments_run(lines_of(t), 0, Seq::empty())
}

/// The entries of blocks `es` from the `i`-th on, appended to `acc`; each
/// block must hold text.
pub open spec fn entries_run(es: Seq<BlockModel>, i: int, acc: Seq<WarnModel>) -> Result<Seq<WarnModel>, EngineError>
    decreases es.len() - i,
{
    if i < 0 || i >= es.len() {
        Ok(acc)
    } else {
        match es[i].content {
            ContentModel::Text(t) => match warning_of(t) {
                Ok(w) => entries_run(es, i + 1, acc.push(w)),
                Err(e) => Err(e),
            },
            ContentModel::Blocks(_) => Err(EngineError::MisplacedContent { line: es[i].open_line as usize }),
        }
    }
}

/// The entries of the blocks `es`, one per block.
pub open spec fn entries_of(es: Seq<BlockModel>) -> Result<Seq<WarnModel>, EngineError> {
    entries_run(es, 0, Seq::empty())
}

/// The sections of a call read so far.
pub struct Sections {
    pub does: Option<Seq<AssignModel>>,
    pub warn: Option<Seq<WarnModel>>,
    pub deny: Option<Seq<WarnModel>>,
}

/// The sections after reading section block `b`: `Does` holds text, one
/// assignment per line; `Warn` and `Deny` hold one block per entry; a
/// section read again replaces the earlier one.
pub open spec fn read_section(b: BlockModel, acc: Sections) -> Result<Sections, EngineError> {
    let kw = trim_of(b.open_text);
    if has_prefix(kw, "Does"@) {
        match b.content {
            ContentModel::Text(t) => match assignments_of(t) {
                Ok(a) => Ok(Sections { does: Some(a), ..acc }),
                Err(e) => Err(e),
            },
            ContentModel::Blocks(_) => Err(EngineError::MisplacedContent { line: b.open_line as usize }),
        }
    } else if has_prefix(kw, "Warn"@) {
        match b.content {
            ContentModel::Blocks(es) => match entries_of(es) {
                Ok(w) => Ok(Sections { warn: Some(w), ..acc }),
                Err(e) => Err(e),
            },
            ContentModel::Text(_) => Err(EngineError::MisplacedContent { line: b.open_line as usize }),
        }
    } else if has_prefix(kw, "Deny"@) {
        match b.content {
            ContentModel::Blocks(es) => match entries_of(es) {
                Ok(w) => Ok(Sections { deny: Some(w), ..acc }),
                Err(e) => Err(e),
            },
            ContentModel::Text(_) => Err(EngineError::MisplacedContent { line: b.open_line as usize }),
        }
    } else {
        Err(EngineError::UnknownSection { line: b.open_line as usize })
    }
}

/// The sections read from blocks `cs` from the `i`-th on.
pub open spec fn sections_run(cs: Seq<BlockModel>, i: int, acc: Sections) -> Result<Sections, EngineError>
    decreases cs.len() - i,
{
    if i < 0 || i >= cs.len() {
        Ok(acc)
    } else {
        match read_section(cs[i], acc) {
            Ok(s) => sections_run(cs, i + 1, s),
            Err(e) => Err(e),
        }
    }
}

/// Mathematical value of a call.
pub struct CallModel {
    pub name: Seq<char>,
    pub does: Option<Seq<AssignModel>>,
    pub warn: Option<Seq<WarnModel>>,
    pub deny: Option<Seq<WarnModel>>,
}

/// The call described by block `b`: named by its opening line, with the
/// sections nested in it.
pub open spec fn call_of(b: BlockModel) -> Result<CallModel, EngineError> {
    match b.content {
        ContentModel::Blocks(cs) => match sections_run(cs, 0, Sections { does: None, warn: None, deny: None }) {
            Ok(s) => Ok(CallModel { name: b.open_text, does: s.does, warn: s.warn, deny: s.deny }),
            Err(e) => Err(e),
        },
        ContentModel::Text(_) => Ok(CallModel { name: b.open_text, does: None, warn: None, deny: None }),
    }
}

/// The contract of one entry point of a data structure's API.
#[derive(Debug)]
pub struct Call {
    pub name: String,
    pub does: Option<Vec<Assignement>>,
    pub warn: Option<Vec<Warning>>,
    pub deny: Option<Vec<Deny>>,
}

/// The models of a sequence of assignments.
pub open spec fn assigns_model(v: Seq<Assignement>) -> Seq<AssignModel> {
    v.map_values(|a: Assignement| a@)
}

/// The models of a sequence of warnings.
pub open spec fn warns_model(v: Seq<Warning>) -> Seq<WarnModel> {
    v.map_values(|w: Warning| w@)
}

/// The model of an optional list of assignments.
pub open spec fn opt_assigns(o: Option<Vec<Assignement>>) -> Option<Seq<AssignModel>> {
    match o {
        Some(v) => Some(assigns_model(v@)),
        None => None,
    }
}

/// The model of an optional list of warnings.
pub open spec fn opt_warns(o: Option<Vec<Warning>>) -> Option<Seq<WarnModel>> {
    match o {
        Some(v) => Some(warns_model(v@)),
        None => None,
    }
}

impl View for Call {
    type V = CallModel;

    open spec fn view(&self) -> CallModel {
        CallModel {
            name: self.name@,
            does: opt_assigns(self.does),
            warn: opt_warns(self.warn),
            deny: opt_warns(self.deny),
        }
    }
}

/// The model of a call result.
pub open spec fn call_result(r: Result<Call, EngineError>) -> Result<CallModel, EngineError> {
    match r {
        Ok(c) => Ok(c@),
        Err(e) => Err(e),
    }
}

/// The assignments written one per line in `t`.
fn read_assignments(t: &String) -> (r: Result<Vec<Assignement>, EngineError>)
    ensures
        match r {
            Ok(v) => assignments_of(t@) == Ok::<Seq<AssignModel>, EngineError>(assigns_model(v@)),
            Err(e) => assignments_of(t@) == Err::<Seq<AssignModel>, EngineError>(e),
        },
{
    let lines = split_lines(t.as_str());
    let ghost ls = strings_model(lines@);
    let mut out: Vec<Assignement> = Vec::new();
    let mut i: usize = 0;
    assert(assigns_model(out@) =~= Seq::<AssignModel>::empty());
    while i < lines.len()
        invariant
            i <= lines.len(),
            ls == strings_model(lines@),
            ls == lines_of(t@),
            assignments_of(t@) == assignments_run(ls, i as int, assigns_model(out@)),
        decreases lines.len() - i,
    {
        assert(ls[i as int] == lines@[i as int]@);
        match Assignement::from_string(lines[i].as_str()) {
            Ok(a) => {
                let ghost prev = out@;
                out.push(a);
                assert(assigns_model(out@) =~= assigns_model(prev).push(a@));
            },
            Err(e) => {
                return Err(e);
            },
        }
        i += 1;
    }
    Ok(out)
}

/// The entries of blocks `es`, one per block.
fn read_entries(es: &Vec<Bracketed>) -> (r: Result<Vec<Warning>, EngineError>)
    ensures
        match r {
            Ok(v) => entries_of(blocks_model(es@)) == Ok::<Seq<WarnModel>, EngineError>(warns_model(v@)),
            Err(e) => entries_of(blocks_model(es@)) == Err::<Seq<WarnModel>, EngineError>(e),
        },
{
    let ghost bs = blocks_model(es@);
    let mut out: Vec<Warning> = Vec::new();
    let mut i: usize = 0;
    assert(warns_model(out@) =~= Seq::<WarnModel>::empty());
    while i < es.len()
        invariant
            i <= es.len(),
            bs == blocks_model(es@),
            entries_of(bs) == entries_run(bs, i as int, warns_model(out@)),
        decreases es.len() - i,
    {
        let e = &es[i];
        assert(bs[i as int] == block_view(*e));
        match &e.content {
            BlockContent::Text(t) => match Warning::from_string(t.as_str()) {
                Ok(w) => {
                    let ghost prev = out@;
                    out.push(w);
                    assert(warns_model(out@) =~= warns_model(prev).push(w@));
                },
                Err(err) => {
                    return Err(err);
                },
            },
            BlockContent::Blocks(_) => {
                proof {
                    lemma_block_view_blocks(*e);
                }
                return Err(EngineError::MisplacedContent { line: e.beginning_line.line_number });
            },
        }
        i += 1;
    }
    Ok(out)
}

impl Call {
    /// The call described by a filled block: named by its opening line, with
    /// its `Does`, `Warn` and `Deny` sections.
    pub fn from_bracketed(bracketed: Bracketed) -> (r: Result<Call, EngineError>)
        ensures
            call_result(r) == call_of(block_view(bracketed)),
    {
        let ghost m = block_view(bracketed);
        let Bracketed { beginning_line, ending_line: _, content } = bracketed;
        let name = beginning_line.line;
        match content {
            BlockContent::Text(_) => Ok(Call { name, does: None, warn: None, deny: None }),
            BlockContent::Blocks(v) => {
                proof {
                    lemma_block_view_blocks(bracketed);
                }
                let ghost cs = blocks_model(v@);
                let mut does: Option<Vec<Assignement>> = None;
                let mut warn: Option<Vec<Warning>> = None;
                let mut deny: Option<Vec<Deny>> = None;
                let mut i: usize = 0;
                while i < v.len()
                    invariant
                        i <= v.len(),
                        cs == blocks_model(v@),
                        m == block_view(bracketed),
                        m.content == ContentModel::Blocks(cs),
                        sections_run(cs, 0, Sections { does: None, warn: None, deny: None }) == sections_run(
                            cs,
                            i as int,
                            Sections { does: opt_assigns(does), warn: opt_warns(warn), deny: opt_warns(deny) },
                        ),
                    decreases v.len() - i,
                {
                    let b = &v[i];
                    assert(cs[i as int] == block_view(*b));
                    let kw = trim_str(b.beginning_line.line.as_str());
                    if starts_with(kw, "Does") {
                        match &b.content {
                            BlockContent::Text(t) => match read_assignments(t) {
                                Ok(a) => {
                                    does = Some(a);
                                },
                                Err(e) => {
                                    return Err(e);
                                },
                            },
                            BlockContent::Blocks(_) => {
                                proof {
                                    lemma_block_view_blocks(*b);
                                }
                                return Err(EngineError::MisplacedContent { line: b.beginning_line.line_number });
                            },
                        }
                    } else if starts_with(kw, "Warn") || starts_with(kw, "Deny") {
                        let is_warn = starts_with(kw, "Warn");
                        match &b.content {
                            BlockContent::Blocks(es) => {
                                proof {
                                    lemma_block_view_blocks(*b);
                                }
                                match read_entries(es) {
                                    Ok(w) => {
                                        if is_warn {
                                            warn = Some(w);
                                        } else {
                                            deny = Some(w);
                                        }
                                    },
                                    Err(e) => {
                                        return Err(e);
                                    },
                                }
                            },
                            BlockContent::Text(_) => {
                                return Err(EngineError::MisplacedContent { line: b.beginning_line.line_number });
                            },
                        }
                    } else {
                        return Err(EngineError::UnknownSection { line: b.beginning_line.line_number });
                    }
                    i += 1;
                }
                Ok(Call { name, does, warn, deny })
            },
        }
    }
}

/// What an annotation document declares about one data structure.
pub struct DataStruct {
    pub name: String,
    pub constructors: Vec<String>,
    pub destructors: Vec<String>,
    pub meta_data: Vec<MetaData>,
    pub calls: Vec<Call>,
}

} // verus!
