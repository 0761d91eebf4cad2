//! The wirepack tree-group sub-protocol: structural tokens, the generic
//! token-to-domain-object converter, and the tree-manifest assembler that
//! reconstructs full manifest entries from null-based deltas.
//!
//! The assembler assumes, as the server-side protocol guarantees, that all
//! data is sent as a delta from the null revision and that there are
//! exactly one history entry and exactly one data entry for each tree.

use vstd::prelude::*;

use crate::delta::{apply, frags_wf, spec_apply, Delta, FragmentView};
use crate::errors::{ErrorKind, ErrorKindView, TreeError};
use crate::hash::{null_hash_seq, NodeHash};
use crate::manifest::{spec_parse_manifest, DetailsView, ManifestContent};
use crate::path::{RepoPath, RepoPathView};

verus! {

/// Mathematical model of a history entry.
#[verifier::ext_equal]
pub ghost struct HistoryEntryView {
    pub node: Seq<u8>,
    pub p1: Seq<u8>,
    pub p2: Seq<u8>,
    pub linknode: Seq<u8>,
    pub copy_from: Option<RepoPathView>,
}

/// One history record of a path-cycle.
pub struct HistoryEntry {
    pub node: NodeHash,
    pub p1: NodeHash,
    pub p2: NodeHash,
    pub linknode: NodeHash,
    pub copy_from: Option<RepoPath>,
}

impl View for HistoryEntry {
    type V = HistoryEntryView;

    open spec fn view(&self) -> HistoryEntryView {
        HistoryEntryView {
            node: self.node@,
            p1: self.p1@,
            p2: self.p2@,
            linknode: self.linknode@,
            copy_from: match self.copy_from {
                Some(p) => Some(p@),
                None => None,
            },
        }
    }
}

impl HistoryEntry {
    pub open spec fn wf(&self) -> bool {
        &&& self.node.wf()
        &&& self.p1.wf()
        &&& self.p2.wf()
        &&& self.linknode.wf()
        &&& (self.copy_from matches Some(p) ==> p.wf())
    }
}

/// Mathematical model of a data entry.
#[verifier::ext_equal]
pub ghost struct DataEntryView {
    pub node: Seq<u8>,
    pub delta_base: Seq<u8>,
    pub delta: Seq<FragmentView>,
}

/// One data record of a path-cycle: a delta against `delta_base`.
pub struct DataEntry {
    pub node: NodeHash,
    pub delta_base: NodeHash,
    pub delta: Delta,
}

impl View for DataEntry {
    type V = DataEntryView;

    open spec fn view(&self) -> DataEntryView {
        DataEntryView { node: self.node@, delta_base: self.delta_base@, delta: self.delta@ }
    }
}

impl DataEntry {
    pub open spec fn wf(&self) -> bool {
        &&& self.node.wf()
        &&& self.delta_base.wf()
        &&& (self.delta_base@ == null_hash_seq() ==> frags_wf(self.delta@, 0))
    }
}

/// Mathematical model of a structural token.
#[verifier::ext_equal]
pub ghost enum PartView {
    HistoryMeta { path: RepoPathView, entry_count: u32 },
    History(HistoryEntryView),
    DataMeta { path: RepoPathView, entry_count: u32 },
    Data(DataEntryView),
    End,
}

/// One structural token of a tree-group part's payload.
pub enum Part {
    HistoryMeta { path: RepoPath, entry_count: u32 },
    History(HistoryEntry),
    DataMeta { path: RepoPath, entry_count: u32 },
    Data(DataEntry),
    End,
}

impl View for Part {
    type V = PartView;

    open spec fn view(&self) -> PartView {
        match self {
            Part::HistoryMeta { path, entry_count } => PartView::HistoryMeta {
                path: path@,
                entry_count: *entry_count,
            },
            Part::History(e) => PartView::History(e@),
            Part::DataMeta { path, entry_count } => PartView::DataMeta {
                path: path@,
                entry_count: *entry_count,
            },
            Part::Data(e) => PartView::Data(e@),
            Part::End => PartView::End,
        }
    }
}

impl Part {
    pub open spec fn wf(&self) -> bool {
        match self {
            Part::HistoryMeta { path, .. } => path.wf(),
            Part::History(e) => e.wf(),
            Part::DataMeta { path, .. } => path.wf(),
            Part::Data(e) => e.wf(),
            Part::End => true,
        }
    }
}

/// Normalizes the null hash to "absent".
pub open spec fn opt_hash(h: Seq<u8>) -> Option<Seq<u8>> {
    if h == null_hash_seq() {
        None
    } else {
        Some(h)
    }
}

/// Mathematical model of a completed tree-manifest entry.
#[verifier::ext_equal]
pub ghost struct TreemanifestEntryView {
    pub node: Seq<u8>,
    pub data: Seq<u8>,
    pub p1: Option<Seq<u8>>,
    pub p2: Option<Seq<u8>>,
    pub path: RepoPathView,
    pub manifest_content: Seq<(Seq<u8>, DetailsView)>,
}

/// A completed tree-manifest entry: node id, reconstructed content bytes,
/// normalized parents, path, and the parsed manifest structure.
pub struct TreemanifestEntry {
    pub node: NodeHash,
    pub data: Vec<u8>,
    pub p1: Option<NodeHash>,
    pub p2: Option<NodeHash>,
    pub path: RepoPath,
    pub manifest_content: ManifestContent,
}

impl View for TreemanifestEntry {
    type V = TreemanifestEntryView;

    open spec fn view(&self) -> TreemanifestEntryView {
        TreemanifestEntryView {
            node: self.node@,
            data: self.data@,
            p1: match self.p1 {
                Some(h) => Some(h@),
                None => None,
            },
            p2: match self.p2 {
                Some(h) => Some(h@),
                None => None,
            },
            path: self.path@,
            manifest_content: self.manifest_content@,
        }
    }
}

impl TreemanifestEntry {
    pub open spec fn wf(&self) -> bool {
        &&& self.node.wf()
        &&& (self.p1 matches Some(h) ==> h.wf())
        &&& (self.p2 matches Some(h) ==> h.wf())
        &&& self.path.wf()
        &&& self.manifest_content.wf()
    }

    /// Builds a completed entry: parses `data` as manifest content and
    /// normalizes null parent hashes to `None`.
    pub fn new(node: NodeHash, data: Vec<u8>, p1: NodeHash, p2: NodeHash, path: RepoPath) -> (r:
        Result<TreemanifestEntry, ErrorKind>)
        requires
            node.wf(),
            p1.wf(),
            p2.wf(),
            path.wf(),
        ensures
            match spec_parse_manifest(data@) {
                Some(mc) => r matches Ok(e) && e@ == (TreemanifestEntryView {
                    node: node@,
                    data: data@,
                    p1: opt_hash(p1@),
                    p2: opt_hash(p2@),
                    path: path@,
                    manifest_content: mc,
                }) && e.wf(),
                None => r matches Err(e) && e@ == ErrorKindView::ContentParse,
            },
    {
        let manifest_content = match ManifestContent::parse(&data) {
            Some(mc) => mc,
            None => {
                return Err(ErrorKind::ContentParse);
            },
        };
        Ok(TreemanifestEntry {
            node,
            data,
            p1: p1.into_option(),
            p2: p2.into_option(),
            path,
            manifest_content,
        })
    }
}

/// Mathematical model of the assembler's mutable state.
#[verifier::ext_equal]
pub ghost struct AssemblerView {
    pub node: Option<Seq<u8>>,
    pub p1: Option<Seq<u8>>,
    pub p2: Option<Seq<u8>>,
    pub path: Option<RepoPathView>,
}

/// The assembler state with nothing recorded.
pub open spec fn empty_assembler() -> AssemblerView {
    AssemblerView { node: None, p1: None, p2: None, path: None }
}

/// The assembler state after consuming one token.
pub open spec fn tree_step(pre: AssemblerView, token: PartView) -> AssemblerView {
    match token {
        PartView::HistoryMeta { path, .. } => AssemblerView { path: Some(path), ..pre },
        PartView::History(e) => AssemblerView {
            node: Some(e.node),
            p1: if pre.node is None {
                Some(e.p1)
            } else {
                pre.p1
            },
            p2: if pre.node is None && pre.p1 is None {
                Some(e.p2)
            } else {
                pre.p2
            },
            path: pre.path,
        },
        PartView::DataMeta { .. } => pre,
        PartView::Data(d) => {
            if d.delta_base != null_hash_seq() {
                pre
            } else if pre.node is None {
                pre
            } else if pre.p1 is None {
                AssemblerView { node: None, ..pre }
            } else if pre.p2 is None {
                AssemblerView { node: None, p1: None, ..pre }
            } else if pre.path is None {
                AssemblerView { node: None, p1: None, p2: None, ..pre }
            } else {
                empty_assembler()
            }
        },
        PartView::End => pre,
    }
}

/// What the assembler returns for one token: at most one completed entry,
/// or the violated invariant.
pub open spec fn tree_emit(pre: AssemblerView, token: PartView) -> Result<
    Option<TreemanifestEntryView>,
    ErrorKindView,
> {
    match token {
        PartView::HistoryMeta { path, entry_count } => {
            if pre.path is Some {
                Err(ErrorKindView::MalformedTreemanifestPart(TreeError::PathAlreadySet))
            } else if entry_count != 1 {
                Err(ErrorKindView::MalformedTreemanifestPart(TreeError::WrongHistoryCount(entry_count)))
            } else {
                Ok(None)
            }
        },
        PartView::History(e) => {
            if pre.node is Some {
                Err(ErrorKindView::MalformedTreemanifestPart(TreeError::NodeAlreadySet))
            } else if pre.p1 is Some {
                Err(ErrorKindView::MalformedTreemanifestPart(TreeError::P1AlreadySet))
            } else if pre.p2 is Some {
                Err(ErrorKindView::MalformedTreemanifestPart(TreeError::P2AlreadySet))
            } else {
                Ok(None)
            }
        },
        PartView::DataMeta { path, entry_count } => {
            if Some(path) != pre.path {
                Err(ErrorKindView::MalformedTreemanifestPart(TreeError::PathMismatch))
            } else if entry_count != 1 {
                Err(ErrorKindView::MalformedTreemanifestPart(TreeError::WrongDataCount(entry_count)))
            } else {
                Ok(None)
            }
        },
        PartView::Data(d) => {
            if d.delta_base != null_hash_seq() {
                Err(ErrorKindView::MalformedTreemanifestPart(TreeError::WrongDeltaBase))
            } else if pre.node is None {
                Err(ErrorKindView::MalformedTreemanifestPart(TreeError::MissingNode))
            } else if pre.p1 is None {
                Err(ErrorKindView::MalformedTreemanifestPart(TreeError::MissingP1))
            } else if pre.p2 is None {
                Err(ErrorKindView::MalformedTreemanifestPart(TreeError::MissingP2))
            } else if pre.path is None {
                Err(ErrorKindView::MalformedTreemanifestPart(TreeError::MissingPath))
            } else {
                let content = spec_apply(Seq::<u8>::empty(), d.delta);
                match spec_parse_manifest(content) {
                    None => Err(ErrorKindView::ContentParse),
                    Some(mc) => Ok(Some(TreemanifestEntryView {
                        node: pre.node->0,
                        data: content,
                        p1: opt_hash(pre.p1->0),
                        p2: opt_hash(pre.p2->0),
                        path: pre.path->0,
                        manifest_content: mc,
                    })),
                }
            }
        },
        PartView::End => {
            if pre.node is Some || pre.p1 is Some || pre.p2 is Some || pre.path is Some {
                Err(ErrorKindView::MalformedTreemanifestPart(TreeError::IncompleteCycle))
            } else {
                Ok(None)
            }
        },
    }
}

/// Whether an executable assembler result matches the modelled one.
pub open spec fn emit_matches(
    r: Result<Option<TreemanifestEntry>, ErrorKind>,
    s: Result<Option<TreemanifestEntryView>, ErrorKindView>,
) -> bool {
    match r {
        Ok(None) => s == Ok::<Option<TreemanifestEntryView>, ErrorKindView>(None),
        Ok(Some(e)) => s matches Ok(Some(v)) && e@ == v && e.wf(),
        Err(e) => s matches Err(v) && e@ == v,
    }
}

/// A pluggable assembler: turns the structural tokens of one wirepack part
/// into zero-or-one completed domain object per token. All validation and
/// accumulation live in the implementation; the converter only dispatches.
pub trait WirePackPartProcessor: Sized {
    type Data;

    /// Well-formedness of the assembler state.
    spec fn wf(&self) -> bool;

    /// What a history-meta token does to the state and returns.
    spec fn history_meta_ens(
        pre: Self,
        post: Self,
        path: RepoPathView,
        entry_count: u32,
        r: Result<Option<Self::Data>, ErrorKind>,
    ) -> bool;

    /// What a history token does to the state and returns.
    spec fn history_ens(
        pre: Self,
        post: Self,
        entry: HistoryEntryView,
        r: Result<Option<Self::Data>, ErrorKind>,
    ) -> bool;

    /// What a data-meta token does to the state and returns.
    spec fn data_meta_ens(
        pre: Self,
        post: Self,
        path: RepoPathView,
        entry_count: u32,
        r: Result<Option<Self::Data>, ErrorKind>,
    ) -> bool;

    /// What a data token does to the state and returns.
    spec fn data_ens(
        pre: Self,
        post: Self,
        entry: DataEntryView,
        r: Result<Option<Self::Data>, ErrorKind>,
    ) -> bool;

    /// What the end token does to the state and returns.
    spec fn end_ens(pre: Self, post: Self, r: Result<Option<Self::Data>, ErrorKind>) -> bool;

    fn history_meta(&mut self, path: &RepoPath, entry_count: u32) -> (r: Result<
        Option<Self::Data>,
        ErrorKind,
    >)
        requires
            old(self).wf(),
            path.wf(),
        ensures
            final(self).wf(),
            Self::history_meta_ens(*old(self), *final(self), path@, entry_count, r),
    ;

    fn history(&mut self, entry: &HistoryEntry) -> (r: Result<Option<Self::Data>, ErrorKind>)
        requires
            old(self).wf(),
            entry.wf(),
        ensures
            final(self).wf(),
            Self::history_ens(*old(self), *final(self), entry@, r),
    ;

    fn data_meta(&mut self, path: &RepoPath, entry_count: u32) -> (r: Result<
        Option<Self::Data>,
        ErrorKind,
    >)
        requires
            old(self).wf(),
            path.wf(),
        ensures
            final(self).wf(),
            Self::data_meta_ens(*old(self), *final(self), path@, entry_count, r),
    ;

    fn data(&mut self, entry: &DataEntry) -> (r: Result<Option<Self::Data>, ErrorKind>)
        requires
            old(self).wf(),
            entry.wf(),
        ensures
            final(self).wf(),
            Self::data_ens(*old(self), *final(self), entry@, r),
    ;

    fn end(&mut self) -> (r: Result<Option<Self::Data>, ErrorKind>)
        requires
            old(self).wf(),
        ensures
            final(self).wf(),
            Self::end_ens(*old(self), *final(self), r),
    ;
}

/// The converter between a raw token sequence and a sequence of completed
/// domain objects. It feeds each token to the matching assembler callback
/// and yields whatever the callback returns; after the end token it is
/// fused and consumes nothing further.
pub struct WirePackConverter<P> {
    pub processor: P,
    pub ended: bool,
}

impl<P: WirePackPartProcessor> WirePackConverter<P> {
    pub fn new(processor: P) -> (r: Self)
        ensures
            r.processor == processor,
            !r.ended,
    {
        WirePackConverter { processor, ended: false }
    }

    /// Feeds one token to the assembler.
    pub fn feed(&mut self, part: &Part) -> (r: Result<Option<P::Data>, ErrorKind>)
        requires
            old(self).processor.wf(),
            part.wf(),
        ensures
            final(self).processor.wf(),
            old(self).ended ==> *final(self) == *old(self) && r == Ok::<Option<P::Data>, ErrorKind>(None),
            !old(self).ended ==> final(self).ended == (part@ is End) && (match part@ {
                PartView::HistoryMeta { path, entry_count } => P::history_meta_ens(
                    old(self).processor,
                    final(self).processor,
                    path,
                    entry_count,
                    r,
                ),
                PartView::History(e) => P::history_ens(
                    old(self).processor,
                    final(self).processor,
                    e,
                    r,
                ),
                PartView::DataMeta { path, entry_count } => P::data_meta_ens(
                    old(self).processor,
                    final(self).processor,
                    path,
                    entry_count,
                    r,
                ),
                PartView::Data(e) => P::data_ens(old(self).processor, final(self).processor, e, r),
                PartView::End => P::end_ens(old(self).processor, final(self).processor, r),
            }),
    {
        if self.ended {
            return Ok(None);
        }
        match part {
            Part::HistoryMeta { path, entry_count } => self.processor.history_meta(path, *entry_count),
            Part::History(e) => self.processor.history(e),
            Part::DataMeta { path, entry_count } => self.processor.data_meta(path, *entry_count),
            Part::Data(e) => self.processor.data(e),
            Part::End => {
                self.ended = true;
                self.processor.end()
            },
        }
    }
}

/// The concrete tree-manifest assembler: optional current path, node and
/// parents, each set at most once per path-cycle.
pub struct TreemanifestPartProcessor {
    pub node: Option<NodeHash>,
    pub p1: Option<NodeHash>,
    pub p2: Option<NodeHash>,
    pub path: Option<RepoPath>,
}

impl View for TreemanifestPartProcessor {
    type V = AssemblerView;

    open spec fn view(&self) -> AssemblerView {
        AssemblerView {
            node: match self.node {
                Some(h) => Some(h@),
                None => None,
            },
            p1: match self.p1 {
                Some(h) => Some(h@),
                None => None,
            },
            p2: match self.p2 {
                Some(h) => Some(h@),
                None => None,
            },
            path: match self.path {
                Some(p) => Some(p@),
                None => None,
            },
        }
    }
}

impl TreemanifestPartProcessor {
    pub fn new() -> (r: Self)
        ensures
            r@ == empty_assembler(),
            r.wf(),
    {
        TreemanifestPartProcessor { node: None, p1: None, p2: None, path: None }
    }
}

/// Stores `new_value`, failing if something was already stored.
fn replace_or_fail_if_exists<T>(existing: &mut Option<T>, new_value: T, err: TreeError) -> (r:
    Result<(), ErrorKind>)
    ensures
        *final(existing) == Some(new_value),
        match r {
            Ok(()) => *old(existing) is None,
            Err(e) => *old(existing) is Some && e == ErrorKind::MalformedTreemanifestPart(err),
        },
{
    let was_set = existing.is_some();
    *existing = Some(new_value);
    if was_set {
        Err(ErrorKind::MalformedTreemanifestPart(err))
    } else {
        Ok(())
    }
}

/// Takes a field that must be present, failing if it is not.
fn unwrap_field<T>(field: &mut Option<T>, err: TreeError) -> (r: Result<T, ErrorKind>)
    ensures
        *final(field) is None,
        match r {
            Ok(v) => *old(field) == Some(v),
            Err(e) => *old(field) is None && e == ErrorKind::MalformedTreemanifestPart(err),
        },
{
    match field.take() {
        Some(v) => Ok(v),
        None => Err(ErrorKind::MalformedTreemanifestPart(err)),
    }
}

impl WirePackPartProcessor for TreemanifestPartProcessor {
    type Data = TreemanifestEntry;

    open spec fn wf(&self) -> bool {
        &&& (self.node matches Some(h) ==> h.wf())
        &&& (self.p1 matches Some(h) ==> h.wf())
        &&& (self.p2 matches Some(h) ==> h.wf())
        &&& (self.path matches Some(p) ==> p.wf())
    }

    open spec fn history_meta_ens(
        pre: Self,
        post: Self,
        path: RepoPathView,
        entry_count: u32,
        r: Result<Option<TreemanifestEntry>, ErrorKind>,
    ) -> bool {
        &&& post@ == tree_step(pre@, PartView::HistoryMeta { path, entry_count })
        &&& emit_matches(r, tree_emit(pre@, PartView::HistoryMeta { path, entry_count }))
    }

    open spec fn history_ens(
        pre: Self,
        post: Self,
        entry: HistoryEntryView,
        r: Result<Option<TreemanifestEntry>, ErrorKind>,
    ) -> bool {
        &&& post@ == tree_step(pre@, PartView::History(entry))
        &&& emit_matches(r, tree_emit(pre@, PartView::History(entry)))
    }

    open spec fn data_meta_ens(
        pre: Self,
        post: Self,
        path: RepoPathView,
        entry_count: u32,
        r: Result<Option<TreemanifestEntry>, ErrorKind>,
    ) -> bool {
        &&& post@ == tree_step(pre@, PartView::DataMeta { path, entry_count })
        &&& emit_matches(r, tree_emit(pre@, PartView::DataMeta { path, entry_count }))
    }

    open spec fn data_ens(
        pre: Self,
        post: Self,
        entry: DataEntryView,
        r: Result<Option<TreemanifestEntry>, ErrorKind>,
    ) -> bool {
        &&& post@ == tree_step(pre@, PartView::Data(entry))
        &&& emit_matches(r, tree_emit(pre@, PartView::Data(entry)))
    }

    open spec fn end_ens(
        pre: Self,
        post: Self,
        r: Result<Option<TreemanifestEntry>, ErrorKind>,
    ) -> bool {
        &&& post@ == tree_step(pre@, PartView::End)
        &&& emit_matches(r, tree_emit(pre@, PartView::End))
    }

    fn history_meta(&mut self, path: &RepoPath, entry_count: u32) -> (r: Result<
        Option<TreemanifestEntry>,
        ErrorKind,
    >) {
        match replace_or_fail_if_exists(&mut self.path, path.clone(), TreeError::PathAlreadySet) {
            Err(e) => Err(e),
            Ok(()) => {
                if entry_count != 1 {
                    Err(ErrorKind::MalformedTreemanifestPart(TreeError::WrongHistoryCount(
                        entry_count,
                    )))
                } else {
                    Ok(None)
                }
            },
        }
    }

    fn history(&mut self, entry: &HistoryEntry) -> (r: Result<Option<TreemanifestEntry>, ErrorKind>) {
        match replace_or_fail_if_exists(&mut self.node, entry.node.clone(), TreeError::NodeAlreadySet)
        {
            Err(e) => Err(e),
            Ok(()) => match replace_or_fail_if_exists(
                &mut self.p1,
                entry.p1.clone(),
                TreeError::P1AlreadySet,
            ) {
                Err(e) => Err(e),
                Ok(()) => match replace_or_fail_if_exists(
                    &mut self.p2,
                    entry.p2.clone(),
                    TreeError::P2AlreadySet,
                ) {
                    Err(e) => Err(e),
                    Ok(()) => Ok(None),
                },
            },
        }
    }

    fn data_meta(&mut self, path: &RepoPath, entry_count: u32) -> (r: Result<
        Option<TreemanifestEntry>,
        ErrorKind,
    >) {
        let matches_path = match &self.path {
            Some(p) => p.eq_path(path),
            None => false,
        };
        if !matches_path {
            Err(ErrorKind::MalformedTreemanifestPart(TreeError::PathMismatch))
        } else if entry_count != 1 {
            Err(ErrorKind::MalformedTreemanifestPart(TreeError::WrongDataCount(entry_count)))
        } else {
            Ok(None)
        }
    }

    fn data(&mut self, data_entry: &DataEntry) -> (r: Result<Option<TreemanifestEntry>, ErrorKind>) {
        if !data_entry.delta_base.is_null() {
            return Err(ErrorKind::MalformedTreemanifestPart(TreeError::WrongDeltaBase));
        }
        let node = match unwrap_field(&mut self.node, TreeError::MissingNode) {
            Ok(v) => v,
            Err(e) => {
                return Err(e);
            },
        };
        let empty_base: Vec<u8> = Vec::new();
        let bytes = apply(&empty_base, &data_entry.delta);
        let p1 = match unwrap_field(&mut self.p1, TreeError::MissingP1) {
            Ok(v) => v,
            Err(e) => {
                return Err(e);
            },
        };
        let p2 = match unwrap_field(&mut self.p2, TreeError::MissingP2) {
            Ok(v) => v,
            Err(e) => {
                return Err(e);
            },
        };
        let path = match unwrap_field(&mut self.path, TreeError::MissingPath) {
            Ok(v) => v,
            Err(e) => {
                return Err(e);
            },
        };
        proof {
            assert(empty_base@ =~= Seq::<u8>::empty());
        }
        match TreemanifestEntry::new(node, bytes, p1, p2, path) {
            Ok(e) => Ok(Some(e)),
            Err(e) => Err(e),
        }
    }

    fn end(&mut self) -> (r: Result<Option<TreemanifestEntry>, ErrorKind>) {
        if self.node.is_some() || self.p1.is_some() || self.p2.is_some() || self.path.is_some() {
            Err(ErrorKind::MalformedTreemanifestPart(TreeError::IncompleteCycle))
        } else {
            Ok(None)
        }
    }
}

/// The views of a token sequence.
pub open spec fn parts_view(parts: Seq<Part>) -> Seq<PartView> {
    Seq::new(parts.len(), |i: int| parts[i]@)
}

/// The views of an entry sequence.
pub open spec fn entries_view(entries: Seq<TreemanifestEntry>) -> Seq<TreemanifestEntryView> {
    Seq::new(entries.len(), |i: int| entries[i]@)
}

/// The entries the tree-manifest assembler emits for a token sequence
/// starting from `state`, or the first violated invariant. Tokens after
/// the end token are not consumed; a sequence that stops short of the end
/// token yields what was completed so far.
pub open spec fn tree_run(state: AssemblerView, tokens: Seq<PartView>) -> Result<
    Seq<TreemanifestEntryView>,
    ErrorKindView,
>
    decreases tokens.len(),
{
    if tokens.len() == 0 {
        Ok(Seq::empty())
    } else {
        let t = tokens[0];
        match tree_emit(state, t) {
            Err(e) => Err(e),
            Ok(opt) => {
                if t is End {
                    Ok(Seq::empty())
                } else {
                    match tree_run(tree_step(state, t), tokens.drop_first()) {
                        Err(e) => Err(e),
                        Ok(rest) => Ok(
                            match opt {
                                Some(v) => seq![v] + rest,
                                None => rest,
                            },
                        ),
                    }
                }
            },
        }
    }
}

/// Completed-cycle law: one path with exactly one history entry and one
/// data entry whose delta base is the null hash assembles to exactly one
/// completed entry, and nothing more. Its parents are absent exactly
/// where the history hashes are null, and its parsed content is the
/// parse of the delta applied to the empty base.
pub proof fn lemma_one_cycle(path: RepoPathView, h: HistoryEntryView, d: DataEntryView)
    requires
        d.delta_base == null_hash_seq(),
        spec_parse_manifest(spec_apply(Seq::<u8>::empty(), d.delta)) is Some,
    ensures
        ({
            let tokens = seq![
                PartView::HistoryMeta { path, entry_count: 1 },
                PartView::History(h),
                PartView::DataMeta { path, entry_count: 1 },
                PartView::Data(d),
                PartView::End,
            ];
            let content = spec_apply(Seq::<u8>::empty(), d.delta);
            tree_run(empty_assembler(), tokens) == Ok::<
                Seq<TreemanifestEntryView>,
                ErrorKindView,
            >(
                seq![
                    TreemanifestEntryView {
                        node: h.node,
                        data: content,
                        p1: opt_hash(h.p1),
                        p2: opt_hash(h.p2),
                        path,
                        manifest_content: spec_parse_manifest(content)->0,
                    },
                ],
            )
        }),
{
    let tokens = seq![
        PartView::HistoryMeta { path, entry_count: 1 },
        PartView::History(h),
        PartView::DataMeta { path, entry_count: 1 },
        PartView::Data(d),
        PartView::End,
    ];
    let content = spec_apply(Seq::<u8>::empty(), d.delta);
    let ev = TreemanifestEntryView {
        node: h.node,
        data: content,
        p1: opt_hash(h.p1),
        p2: opt_hash(h.p2),
        path,
        manifest_content: spec_parse_manifest(content)->0,
    };
    let s0 = empty_assembler();
    let s1 = tree_step(s0, tokens[0]);
    let s2 = tree_step(s1, tokens[1]);
    let s3 = tree_step(s2, tokens[2]);
    let s4 = tree_step(s3, tokens[3]);
    assert(s1 == AssemblerView { node: None, p1: None, p2: None, path: Some(path) });
    assert(s2 == AssemblerView {
        node: Some(h.node),
        p1: Some(h.p1),
        p2: Some(h.p2),
        path: Some(path),
    });
    assert(s3 == s2);
    assert(s4 == empty_assembler());

    let t4 = seq![PartView::End];
    let t3 = seq![PartView::Data(d), PartView::End];
    let t2 = seq![PartView::DataMeta { path, entry_count: 1 }, PartView::Data(d), PartView::End];
    let t1 = seq![
        PartView::History(h),
        PartView::DataMeta { path, entry_count: 1 },
        PartView::Data(d),
        PartView::End,
    ];
    assert(tokens.drop_first() =~= t1);
    assert(t1.drop_first() =~= t2);
    assert(t2.drop_first() =~= t3);
    assert(t3.drop_first() =~= t4);

    assert(tree_emit(s4, PartView::End) == Ok::<Option<TreemanifestEntryView>, ErrorKindView>(
        None,
    ));
    assert(tree_run(s4, t4) == Ok::<Seq<TreemanifestEntryView>, ErrorKindView>(Seq::empty()));
    assert(tree_emit(s3, PartView::Data(d)) == Ok::<
        Option<TreemanifestEntryView>,
        ErrorKindView,
    >(Some(ev)));
    assert(tree_run(s3, t3) == Ok::<Seq<TreemanifestEntryView>, ErrorKindView>(
        seq![ev] + Seq::empty(),
    ));
    assert(seq![ev] + Seq::<TreemanifestEntryView>::empty() =~= seq![ev]);
    assert(tree_emit(s2, tokens[2]) == Ok::<Option<TreemanifestEntryView>, ErrorKindView>(None));
    assert(tree_run(s2, t2) == Ok::<Seq<TreemanifestEntryView>, ErrorKindView>(seq![ev]));
    assert(tree_emit(s1, tokens[1]) == Ok::<Option<TreemanifestEntryView>, ErrorKindView>(None));
    assert(tree_run(s1, t1) == Ok::<Seq<TreemanifestEntryView>, ErrorKindView>(seq![ev]));
    assert(tree_emit(s0, tokens[0]) == Ok::<Option<TreemanifestEntryView>, ErrorKindView>(None));
    assert(tree_run(s0, tokens) == Ok::<Seq<TreemanifestEntryView>, ErrorKindView>(seq![ev]));
}

/// Rejection law: assembly fails whenever a history or data meta carries
/// an entry count other than one, a data meta names a path other than
/// the recorded one, a data entry's delta base is not the null hash, or
/// a field would be set a second time before being consumed.
pub proof fn lemma_assembly_rejections(
    state: AssemblerView,
    path: RepoPathView,
    h: HistoryEntryView,
    d: DataEntryView,
    count: u32,
)
    ensures
        count != 1 ==> tree_emit(state, PartView::HistoryMeta { path, entry_count: count }) is Err,
        count != 1 ==> tree_emit(state, PartView::DataMeta { path, entry_count: count }) is Err,
        Some(path) != state.path ==> tree_emit(
            state,
            PartView::DataMeta { path, entry_count: count },
        ) is Err,
        d.delta_base != null_hash_seq() ==> tree_emit(state, PartView::Data(d)) is Err,
        state.path is Some ==> tree_emit(
            state,
            PartView::HistoryMeta { path, entry_count: count },
        ) is Err,
        state.node is Some || state.p1 is Some || state.p2 is Some ==> tree_emit(
            state,
            PartView::History(h),
        ) is Err,
{
}

/// Parser for a wirepack tree part: feeds each structural token to the
/// tree-manifest assembler and yields the completed entries.
pub struct TreemanifestBundle2Parser {
    pub stream: WirePackConverter<TreemanifestPartProcessor>,
}

impl TreemanifestBundle2Parser {
    pub fn new() -> (r: Self)
        ensures
            r.stream.processor@ == empty_assembler(),
            r.stream.processor.wf(),
            !r.stream.ended,
    {
        TreemanifestBundle2Parser { stream: WirePackConverter::new(TreemanifestPartProcessor::new()) }
    }

    /// Feeds one token; yields a completed entry when one path-cycle
    /// closes. After the end token the parser is fused.
    pub fn feed(&mut self, part: &Part) -> (r: Result<Option<TreemanifestEntry>, ErrorKind>)
        requires
            old(self).stream.processor.wf(),
            part.wf(),
        ensures
            final(self).stream.processor.wf(),
            old(self).stream.ended ==> *final(self) == *old(self) && r == Ok::<
                Option<TreemanifestEntry>,
                ErrorKind,
            >(None),
            !old(self).stream.ended ==> {
                &&& final(self).stream.ended == (part@ is End)
                &&& final(self).stream.processor@ == tree_step(old(self).stream.processor@, part@)
                &&& emit_matches(r, tree_emit(old(self).stream.processor@, part@))
            },
    {
        self.stream.feed(part)
    }

    /// Runs a whole token sequence through a fresh assembler, collecting
    /// the completed entries in wire order.
    pub fn parse_parts(parts: &Vec<Part>) -> (r: Result<Vec<TreemanifestEntry>, ErrorKind>)
        requires
            forall|i: int| 0 <= i < parts@.len() ==> (#[trigger] parts@[i]).wf(),
        ensures
            match r {
                Ok(entries) => {
                    &&& tree_run(empty_assembler(), parts_view(parts@)) matches Ok(s)
                        && entries_view(entries@) == s
                    &&& forall|i: int| 0 <= i < entries@.len() ==> (#[trigger] entries@[i]).wf()
                },
                Err(e) => tree_run(empty_assembler(), parts_view(parts@)) matches Err(s) && e@ == s,
            },
    {
        let ghost all = parts_view(parts@);
        let mut parser = TreemanifestBundle2Parser::new();
        let mut out: Vec<TreemanifestEntry> = Vec::new();
        let mut i: usize = 0;
        proof {
            assert(all.skip(0) =~= all);
            assert(entries_view(out@) =~= Seq::<TreemanifestEntryView>::empty());
        }
        while i < parts.len()
            invariant
                forall|j: int| 0 <= j < parts@.len() ==> (#[trigger] parts@[j]).wf(),
                all == parts_view(parts@),
                all.len() == parts@.len(),
                i <= parts@.len(),
                !parser.stream.ended,
                parser.stream.processor.wf(),
                forall|j: int| 0 <= j < out@.len() ==> (#[trigger] out@[j]).wf(),
                tree_run(empty_assembler(), all) == (match tree_run(
                    parser.stream.processor@,
                    all.skip(i as int),
                ) {
                    Ok(rest) => Ok::<Seq<TreemanifestEntryView>, ErrorKindView>(
                        entries_view(out@) + rest,
                    ),
                    Err(e) => Err::<Seq<TreemanifestEntryView>, ErrorKindView>(e),
                }),
            decreases parts@.len() - i,
        {
            let ghost rest_tokens = all.skip(i as int);
            let ghost pre_state = parser.stream.processor@;
            proof {
                assert(rest_tokens[0] == all[i as int]);
                assert(rest_tokens.drop_first() =~= all.skip(i as int + 1));
            }
            let part = &parts[i];
            let step = parser.feed(part);
            i = i + 1;
            match step {
                Err(e) => {
                    proof {
                        assert(tree_run(pre_state, rest_tokens) == Err::<
                            Seq<TreemanifestEntryView>,
                            ErrorKindView,
                        >(e@));
                    }
                    return Err(e);
                },
                Ok(produced) => {
                    if parser.stream.ended {
                        proof {
                            assert(tree_emit(pre_state, rest_tokens[0]) is Ok);
                            assert(tree_run(pre_state, rest_tokens) == Ok::<
                                Seq<TreemanifestEntryView>,
                                ErrorKindView,
                            >(Seq::empty()));
                            assert(entries_view(out@) + Seq::<TreemanifestEntryView>::empty()
                                =~= entries_view(out@));
                        }
                        return Ok(out);
                    }
                    match produced {
                        Some(entry) => {
                            let ghost out_pre = out@;
                            out.push(entry);
                            proof {
                                assert(entries_view(out@) =~= entries_view(out_pre).push(
                                    out@.last()@,
                                ));
                                let emitted = tree_emit(pre_state, rest_tokens[0])->Ok_0->0;
                                assert(out@.last()@ == emitted);
                                match tree_run(parser.stream.processor@, all.skip(i as int)) {
                                    Ok(rest) => {
                                        assert(tree_run(pre_state, rest_tokens) == Ok::<
                                            Seq<TreemanifestEntryView>,
                                            ErrorKindView,
                                        >(seq![emitted] + rest));
                                        assert(entries_view(out_pre) + (seq![emitted] + rest)
                                            =~= entries_view(out@) + rest);
                                    },
                                    Err(_) => {},
                                }
                            }
                        },
                        None => {
                            proof {
                                match tree_run(parser.stream.processor@, all.skip(i as int)) {
                                    Ok(rest) => {
                                        assert(tree_run(pre_state, rest_tokens) == Ok::<
                                            Seq<TreemanifestEntryView>,
                                            ErrorKindView,
                                        >(rest));
                                    },
                                    Err(_) => {},
                                }
                            }
                        },
                    }
                },
            }
        }
        proof {
            assert(all.skip(all.len() as int) =~= Seq::<PartView>::empty());
            assert(entries_view(out@) + Seq::<TreemanifestEntryView>::empty() =~= entries_view(out@));
        }
        Ok(out)
    }
}

} // verus!
