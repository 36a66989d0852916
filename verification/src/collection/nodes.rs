//! Collection node implementations.
//!
//! Nodes read no files. What a directory or a module collects is worked out from what was found on
//! disk: directory entries, or the tests discovered in a source file.

use crate::collection::config::{default_config, CollectionConfig, CollectionConfigView};
use crate::collection::error::{
    warning_views, CollectionError, CollectionResult, CollectionWarning, ErrorView, WarningView,
};
use crate::collection::types::{
    name_or_empty, Collector, IoFailure, Location, LocationView, NodeView, PathInfo, PathView,
};
use crate::collection::utils::{
    any_glob_accepts, glob_match_any, may_match_any, no_backslash, no_backslashes,
};
use crate::python_discovery::cases::{
    case_ids, format_cannot_expand_warning, warning_text, CasesExpansion, ExpansionView,
};
use crate::python_discovery::discovery::{test_views, TestInfo, TestView};
use crate::strings::{contains, copy, has_part, same, text_of, texts};
use vstd::prelude::*;

verus! {

// ---------------------------------------------------------------------------------------------
// Session
// ---------------------------------------------------------------------------------------------
/// Root of the collection tree
#[derive(Debug)]
pub struct Session {
    pub rootpath: String,
    pub nodeid: String,
    pub config: CollectionConfig,
}

/// View of a [`Session`].
pub ghost struct SessionView {
    pub rootpath: Seq<char>,
    pub nodeid: Seq<char>,
    pub config: CollectionConfigView,
}

/// A place at which a session starts to collect.
#[derive(Debug)]
pub enum StartPath {
    /// The session's root.
    Root,
    /// A path to be taken from the session's root.
    FromRoot(String),
    /// A path as it stands.
    Plain(String),
}

/// View of a [`StartPath`].
pub ghost enum StartView {
    Root,
    FromRoot(Seq<char>),
    Plain(Seq<char>),
}

impl StartPath {
    pub open spec fn view(&self) -> StartView {
        match self {
            StartPath::Root => StartView::Root,
            StartPath::FromRoot(path) => StartView::FromRoot(path@),
            StartPath::Plain(path) => StartView::Plain(path@),
        }
    }
}

pub open spec fn start_views(list: Seq<StartPath>) -> Seq<StartView> {
    Seq::new(list.len(), |i: int| list[i].view())
}

pub open spec fn all_from_root(paths: Seq<Seq<char>>) -> Seq<StartView> {
    Seq::new(paths.len(), |i: int| StartView::FromRoot(paths[i]))
}

pub open spec fn all_plain(paths: Seq<Seq<char>>) -> Seq<StartView> {
    Seq::new(paths.len(), |i: int| StartView::Plain(paths[i]))
}

/// Where a session starts: at the given arguments, else at the configured test paths, else at its
/// root.
pub open spec fn start_paths(
    args: Seq<Seq<char>>,
    configured: Seq<Seq<char>>,
    own: Seq<Seq<char>>,
) -> Seq<StartView> {
    if args.len() > 0 {
        all_from_root(args)
    } else if configured.len() > 0 {
        all_from_root(configured)
    } else if own.len() > 0 {
        all_plain(own)
    } else {
        seq![StartView::Root]
    }
}

fn from_root(paths: &[String]) -> (r: Vec<StartPath>)
    ensures
        start_views(r@) == all_from_root(texts(paths@)),
        r@.len() == paths@.len(),
        forall|i: int|
            0 <= i < paths@.len() ==> (#[trigger] r@[i]) is FromRoot && r@[i]->FromRoot_0@
                == paths@[i]@,
{
    let mut r: Vec<StartPath> = Vec::new();
    let mut i: usize = 0;
    while i < paths.len()
        invariant
            i <= paths@.len(),
            r@.len() == i,
            forall|j: int| 0 <= j < i ==> (#[trigger] r@[j])@ == StartView::FromRoot(paths@[j]@),
            forall|j: int|
                0 <= j < i ==> (#[trigger] r@[j]) is FromRoot && r@[j]->FromRoot_0@ == paths@[j]@,
        decreases paths@.len() - i,
    {
        r.push(StartPath::FromRoot(copy(paths[i].as_str())));
        i = i + 1;
    }
    assert(start_views(r@) =~= all_from_root(texts(paths@)));
    r
}

/// The session does not enter or collect the path: a cache directory, a path with an ignored text,
/// or a directory that is not entered.
pub open spec fn ignores(config: CollectionConfigView, path: PathView) -> bool {
    ||| path.file_name == Some("__pycache__"@)
    ||| holds_any(path.path, config.ignore_patterns)
    ||| path.is_dir && any_glob_accepts(config.norecursedirs, name_or_empty(path.file_name))
}

/// One of the texts stands in `s`.
pub open spec fn holds_any(s: Seq<char>, parts: Seq<Seq<char>>) -> bool {
    exists|i: int| 0 <= i < parts.len() && has_part(s, #[trigger] parts[i])
}

/// The file is a test file by its name.
pub open spec fn is_test_name(config: CollectionConfigView, path: PathView) -> bool {
    any_glob_accepts(config.python_files, name_or_empty(path.file_name))
}

/// The patterns for names, and the name of the path, hold no backslashes.
pub open spec fn is_portable(config: CollectionConfigView, path: PathView) -> bool {
    no_backslashes(config.norecursedirs) && no_backslashes(config.python_files) && no_backslash(
        name_or_empty(path.file_name),
    )
}

/// A node of the collection tree below the session.
#[derive(Debug)]
pub enum Node {
    Directory(Directory),
    Module(Module),
    Function(Function),
}

/// View of a [`Node`].
pub ghost enum TreeNodeView {
    Directory(PlaceView),
    Module(PlaceView),
    Function(ItemView),
}

impl Node {
    pub open spec fn view(&self) -> TreeNodeView {
        match self {
            Node::Directory(dir) => TreeNodeView::Directory(dir@),
            Node::Module(module) => TreeNodeView::Module(module@),
            Node::Function(function) => TreeNodeView::Function(function@),
        }
    }
}

pub open spec fn tree_node_views(list: Seq<Node>) -> Seq<TreeNodeView> {
    Seq::new(list.len(), |i: int| list[i].view())
}

/// The node that a session makes of a path: none where the path is ignored, or is neither a
/// directory nor a test file.
pub open spec fn node_at(session: SessionView, path: PathView) -> Option<TreeNodeView> {
    if ignores(session.config, path) {
        None
    } else if path.is_dir {
        Some(TreeNodeView::Directory(place_of(session, path)))
    } else if path.is_file && is_test_name(session.config, path) {
        Some(TreeNodeView::Module(place_of(session, path)))
    } else {
        None
    }
}

/// Whatever the patterns for names say, a session makes of a path only the node of a directory that
/// they may let through or of a file that they may accept, and none of a path that it ignores for
/// another reason.
pub open spec fn may_be_at(session: SessionView, path: PathView, node: TreeNodeView) -> bool {
    &&& path.file_name != Some("__pycache__"@)
    &&& !holds_any(path.path, session.config.ignore_patterns)
    &&& if path.is_dir {
        node == TreeNodeView::Directory(place_of(session, path)) && may_match_any(
            session.config.norecursedirs,
            name_or_empty(path.file_name),
            false,
        )
    } else {
        path.is_file && node == TreeNodeView::Module(place_of(session, path)) && may_match_any(
            session.config.python_files,
            name_or_empty(path.file_name),
            true,
        )
    }
}

/// What a session may make of a path: the patterns for names decide where the path is portable.
pub open spec fn may_give(
    session: SessionView,
    path: PathView,
    node: Option<TreeNodeView>,
) -> bool {
    &&& is_portable(session.config, path) ==> node == node_at(session, path)
    &&& node matches Some(found) ==> may_be_at(session, path, found)
}

/// The nodes are what a session may make of the paths, in their order: each path gives one node or
/// none.
pub open spec fn may_come_from(
    session: SessionView,
    paths: Seq<PathView>,
    nodes: Seq<TreeNodeView>,
) -> bool
    decreases paths.len(),
{
    if paths.len() == 0 {
        nodes.len() == 0
    } else {
        ||| may_give(session, paths.last(), None) && may_come_from(
            session,
            paths.drop_last(),
            nodes,
        )
        ||| nodes.len() > 0 && may_give(session, paths.last(), Some(nodes.last())) && may_come_from(
            session,
            paths.drop_last(),
            nodes.drop_last(),
        )
    }
}

/// The nodes that a session makes of the paths, in order.
pub open spec fn nodes_at(session: SessionView, paths: Seq<PathView>) -> Seq<TreeNodeView>
    decreases paths.len(),
{
    if paths.len() == 0 {
        seq![]
    } else {
        let before = nodes_at(session, paths.drop_last());
        match node_at(session, paths.last()) {
            Some(node) => before.push(node),
            None => before,
        }
    }
}

pub open spec fn path_views(list: Seq<PathInfo>) -> Seq<PathView> {
    Seq::new(list.len(), |i: int| list[i].view())
}

/// All paths are portable.
pub open spec fn all_portable(config: CollectionConfigView, paths: Seq<PathView>) -> bool {
    forall|i: int| 0 <= i < paths.len() ==> is_portable(config, #[trigger] paths[i])
}

/// The first of the paths that does not exist, from `i` on.
pub open spec fn first_missing(paths: Seq<PathView>, i: int) -> Option<Seq<char>>
    decreases paths.len() - i,
{
    if i < 0 || i >= paths.len() {
        None
    } else if !paths[i].exists {
        Some(paths[i].path)
    } else {
        first_missing(paths, i + 1)
    }
}

impl Session {
    pub open spec fn view(&self) -> SessionView {
        SessionView {
            rootpath: self.rootpath@,
            nodeid: self.nodeid@,
            config: self.config@,
        }
    }

    pub fn new(rootpath: String) -> (r: Self)
        ensures
            r@ == (SessionView { rootpath: rootpath@, nodeid: seq![], config: default_config() }),
    {
        let nodeid = String::new();
        assert(nodeid@ =~= Seq::<char>::empty());
        Session { rootpath, nodeid, config: CollectionConfig::default() }
    }

    /// Where the session starts to collect: at the arguments, else at the test paths that the
    /// project configures, else at the session's own test paths or its root.
    pub fn resolve_args(&self, args: &[String], configured: &[String]) -> (r: Vec<StartPath>)
        ensures
            start_views(r@) == start_paths(
                texts(args@),
                texts(configured@),
                self@.config.testpaths,
            ),
            args@.len() > 0 ==> r@.len() == args@.len() && forall|i: int|
                0 <= i < args@.len() ==> (#[trigger] r@[i]) is FromRoot && r@[i]->FromRoot_0@
                    == args@[i]@,
    {
        if args.len() > 0 {
            return from_root(args);
        }
        if configured.len() > 0 {
            return from_root(configured);
        }
        let mut r: Vec<StartPath> = Vec::new();
        if self.config.testpaths.len() == 0 {
            r.push(StartPath::Root);
            assert(start_views(r@) =~= seq![StartView::Root]);
            return r;
        }
        let ghost own = texts(self.config.testpaths@);
        let mut i: usize = 0;
        while i < self.config.testpaths.len()
            invariant
                i <= self.config.testpaths@.len(),
                own == texts(self.config.testpaths@),
                r@.len() == i,
                forall|j: int| 0 <= j < i ==> (#[trigger] r@[j])@ == StartView::Plain(own[j]),
            decreases self.config.testpaths@.len() - i,
        {
            r.push(StartPath::Plain(copy(self.config.testpaths[i].as_str())));
            i = i + 1;
        }
        assert(start_views(r@) =~= all_plain(own));
        r
    }

    /// Collects the given paths. A path that was named explicitly has to exist.
    pub fn perform_collect(&self, explicit: bool, paths: &[PathInfo]) -> (r: CollectionResult<
        (Vec<Node>, Vec<(String, CollectionError)>),
    >)
        ensures
            match r {
                Err(error) => explicit && first_missing(path_views(paths@), 0) is Some && error@
                    == ErrorView::FileNotFound(first_missing(path_views(paths@), 0)->0),
                Ok((nodes, errors)) => {
                    &&& !explicit || first_missing(path_views(paths@), 0) is None
                    &&& errors@.len() == 0
                    &&& all_portable(self@.config, path_views(paths@)) ==> tree_node_views(nodes@)
                        == nodes_at(self@, path_views(paths@))
                    &&& may_come_from(self@, path_views(paths@), tree_node_views(nodes@))
                },
            },
    {
        let ghost views = path_views(paths@);
        if explicit {
            let mut k: usize = 0;
            while k < paths.len()
                invariant
                    k <= paths@.len(),
                    explicit,
                    views == path_views(paths@),
                    first_missing(views, 0) == first_missing(views, k as int),
                decreases paths@.len() - k,
            {
                assert(views[k as int] == paths@[k as int]@);
                if !paths[k].exists {
                    return Err(CollectionError::FileNotFound(copy(paths[k].path.as_str())));
                }
                k = k + 1;
            }
        }
        let mut nodes: Vec<Node> = Vec::new();
        let mut errors: Vec<(String, CollectionError)> = Vec::new();
        let mut i: usize = 0;
        proof {
            assert(views.take(0) =~= Seq::<PathView>::empty());
            assert(tree_node_views(nodes@) =~= Seq::<TreeNodeView>::empty());
        }
        while i < paths.len()
            invariant
                i <= paths@.len(),
                views == path_views(paths@),
                errors@.len() == 0,
                all_portable(self@.config, views) ==> tree_node_views(nodes@) == nodes_at(
                    self@,
                    views.take(i as int),
                ),
                may_come_from(self@, views.take(i as int), tree_node_views(nodes@)),
            decreases paths@.len() - i,
        {
            let ghost before = nodes@;
            proof {
                assert(views[i as int] == paths@[i as int]@);
                assert(views.take(i + 1).drop_last() =~= views.take(i as int));
                assert(views.take(i + 1).last() == paths@[i as int]@);
                assert(views.take(i + 1) =~= views.take(i as int).push(paths@[i as int]@));
            }
            match self.collect_path(&paths[i]) {
                Ok(Some(node)) => {
                    let ghost added = node@;
                    nodes.push(node);
                    proof {
                        assert(tree_node_views(nodes@) =~= tree_node_views(before).push(added));
                        assert(tree_node_views(nodes@).drop_last() =~= tree_node_views(before));
                    }
                },
                Ok(None) => {},
                Err(error) => {
                    errors.push((copy(paths[i].path.as_str()), error));
                },
            }
            i = i + 1;
        }
        assert(views.take(views.len() as int) =~= views);
        Ok((nodes, errors))
    }

    /// The node of a path, if it is collected.
    pub fn collect_path(&self, path: &PathInfo) -> (r: CollectionResult<Option<Node>>)
        ensures
            r is Ok,
            is_portable(self@.config, path@) ==> match r->Ok_0 {
                Some(node) => node_at(self@, path@) == Some(node@),
                None => node_at(self@, path@) is None,
            },
            r->Ok_0 is Some ==> may_be_at(self@, path@, r->Ok_0->0@),
    {
        match self.should_ignore_path(path) {
            Err(error) => {
                return Err(error);
            },
            Ok(true) => {
                return Ok(None);
            },
            Ok(false) => {},
        }
        if path.is_dir {
            Ok(Some(Node::Directory(Directory::new(path, self))))
        } else if path.is_file && self.is_python_file(path) {
            Ok(Some(Node::Module(Module::new(path, self))))
        } else {
            Ok(None)
        }
    }

    /// Whether the session ignores a path.
    pub fn should_ignore_path(&self, path: &PathInfo) -> (r: CollectionResult<bool>)
        ensures
            r is Ok,
            is_portable(self@.config, path@) ==> r->Ok_0 == ignores(self@.config, path@),
            path@.file_name == Some("__pycache__"@) || holds_any(
                path@.path,
                self@.config.ignore_patterns,
            ) ==> r->Ok_0,
            !path.is_dir ==> r->Ok_0 == ignores(self@.config, path@),
            path.is_dir && path@.file_name != Some("__pycache__"@) && !holds_any(
                path@.path,
                self@.config.ignore_patterns,
            ) ==> may_match_any(
                self@.config.norecursedirs,
                name_or_empty(path@.file_name),
                r->Ok_0,
            ),
    {
        // Check __pycache__
        if let Some(name) = &path.file_name {
            if same(name.as_str(), "__pycache__") {
                return Ok(true);
            }
        }
        // Check ignore patterns
        let ghost patterns = texts(self.config.ignore_patterns@);
        let mut i: usize = 0;
        while i < self.config.ignore_patterns.len()
            invariant
                i <= self.config.ignore_patterns@.len(),
                patterns == texts(self.config.ignore_patterns@),
                forall|j: int| 0 <= j < i ==> !has_part(path.path@, #[trigger] patterns[j]),
            decreases self.config.ignore_patterns@.len() - i,
        {
            assert(patterns[i as int] == self.config.ignore_patterns@[i as int]@);
            if contains(path.path.as_str(), self.config.ignore_patterns[i].as_str()) {
                assert(holds_any(path@.path, patterns));
                return Ok(true);
            }
            i = i + 1;
        }
        assert(!holds_any(path@.path, self@.config.ignore_patterns));
        // Check directory recursion patterns
        if path.is_dir {
            let name = path.name();
            if glob_match_any(self.config.norecursedirs.as_slice(), name.as_str()) {
                return Ok(true);
            }
        }
        Ok(false)
    }

    /// Whether a path is that of a test file.
    pub fn is_python_file(&self, path: &PathInfo) -> (r: bool)
        ensures
            no_backslashes(self@.config.python_files) && no_backslash(
                name_or_empty(path@.file_name),
            ) ==> r == is_test_name(self@.config, path@),
            may_match_any(self@.config.python_files, name_or_empty(path@.file_name), r),
            self@.config.python_files.len() == 0 ==> !r,
    {
        let name = path.name();
        glob_match_any(self.config.python_files.as_slice(), name.as_str())
    }
}

impl Collector for Session {
    open spec fn node(&self) -> NodeView {
        NodeView {
            nodeid: self.nodeid@,
            path: self.rootpath@,
            parent: None,
            is_item: false,
            is_parametrized: false,
            has_uncertain_params: false,
        }
    }

    fn nodeid(&self) -> (r: &str) {
        self.nodeid.as_str()
    }

    fn parent(&self) -> (r: Option<&str>) {
        None
    }

    fn path(&self) -> (r: &str) {
        self.rootpath.as_str()
    }

    fn is_item(&self) -> (r: bool) {
        false
    }

    fn is_parametrized(&self) -> (r: bool) {
        false
    }

    fn has_uncertain_params(&self) -> (r: bool) {
        false
    }
}

// ---------------------------------------------------------------------------------------------
// Directories and modules
// ---------------------------------------------------------------------------------------------
/// View of a directory or a module: its path, its node ID (the path relative to the session's root)
/// and the node ID of the session.
pub ghost struct PlaceView {
    pub path: Seq<char>,
    pub nodeid: Seq<char>,
    pub session: Seq<char>,
}

/// The place of a path in a session.
pub open spec fn place_of(session: SessionView, path: PathView) -> PlaceView {
    PlaceView { path: path.path, nodeid: path.relative, session: session.nodeid }
}

/// What a directory or a module tells of itself.
pub open spec fn place_node(place: PlaceView) -> NodeView {
    NodeView {
        nodeid: place.nodeid,
        path: place.path,
        parent: Some(place.session),
        is_item: false,
        is_parametrized: false,
        has_uncertain_params: false,
    }
}

/// Directory collector
#[derive(Debug)]
pub struct Directory {
    pub path: String,
    pub nodeid: String,
    pub parent_session: String,
}

/// A directory listing: the entries, any of which may have failed, or the failure to read it.
pub type Listing = Result<Vec<Result<PathInfo, IoFailure>>, IoFailure>;

/// The paths of the entries that could be read, or the first failure, from `i` on. Entries without
/// permission are passed over.
pub open spec fn readable_from(
    entries: Seq<Result<PathInfo, IoFailure>>,
    i: int,
    done: Seq<PathView>,
) -> Result<Seq<PathView>, Seq<char>>
    decreases entries.len() - i,
{
    if i < 0 || i >= entries.len() {
        Ok(done)
    } else {
        match entries[i] {
            Ok(info) => readable_from(entries, i + 1, done.push(info@)),
            Err(failure) => if failure.permission_denied {
                readable_from(entries, i + 1, done)
            } else {
                Err(failure.message@)
            },
        }
    }
}

/// The paths in a listing. A directory without permission is empty.
pub open spec fn listed_paths(listing: Listing) -> Result<Seq<PathView>, Seq<char>> {
    match listing {
        Ok(entries) => readable_from(entries@, 0, seq![]),
        Err(failure) => if failure.permission_denied {
            Ok(seq![])
        } else {
            Err(failure.message@)
        },
    }
}

impl Directory {
    pub open spec fn view(&self) -> PlaceView {
        PlaceView {
            path: self.path@,
            nodeid: self.nodeid@,
            session: self.parent_session@,
        }
    }

    pub fn new(path: &PathInfo, session: &Session) -> (r: Self)
        ensures
            r@ == place_of(session@, path@),
    {
        Directory {
            path: copy(path.path.as_str()),
            nodeid: copy(path.relative.as_str()),
            parent_session: copy(session.nodeid.as_str()),
        }
    }

    /// The nodes of a directory's entries.
    pub fn collect(&self, session: &Session, listing: &Listing) -> (r: CollectionResult<
        (Vec<Node>, Vec<CollectionWarning>),
    >)
        ensures
            match r {
                Err(error) => listed_paths(*listing) is Err && error@ == ErrorView::IoError(
                    listed_paths(*listing)->Err_0,
                ),
                Ok((nodes, warnings)) => {
                    &&& listed_paths(*listing) is Ok
                    &&& warnings@.len() == 0
                    &&& all_portable(session@.config, listed_paths(*listing)->Ok_0)
                        ==> tree_node_views(nodes@) == nodes_at(
                        session@,
                        listed_paths(*listing)->Ok_0,
                    )
                    &&& may_come_from(
                        session@,
                        listed_paths(*listing)->Ok_0,
                        tree_node_views(nodes@),
                    )
                },
            },
    {
        let mut nodes: Vec<Node> = Vec::new();
        assert(tree_node_views(nodes@) =~= Seq::<TreeNodeView>::empty());
        let entries = match listing {
            Ok(entries) => entries,
            Err(failure) => {
                if failure.permission_denied {
                    return Ok((nodes, Vec::new()));
                }
                return Err(CollectionError::IoError(copy(failure.message.as_str())));
            },
        };
        let ghost mut seen: Seq<PathView> = Seq::empty();
        let mut i: usize = 0;
        while i < entries.len()
            invariant
                i <= entries@.len(),
                listing == (Ok::<Vec<Result<PathInfo, IoFailure>>, IoFailure>(*entries)),
                listed_paths(*listing) == readable_from(entries@, i as int, seen),
                all_portable(session@.config, seen) ==> tree_node_views(nodes@) == nodes_at(
                    session@,
                    seen,
                ),
                may_come_from(session@, seen, tree_node_views(nodes@)),
            decreases entries@.len() - i,
        {
            match &entries[i] {
                Ok(info) => {
                    let ghost earlier = seen;
                    let ghost before = nodes@;
                    proof {
                        seen = seen.push(info@);
                        assert(seen.drop_last() =~= earlier);
                        assert(seen[earlier.len() as int] == info@);
                        assert forall|j: int| 0 <= j < earlier.len() implies earlier[j]
                            == #[trigger] seen[j] by {}
                        if all_portable(session@.config, seen) {
                            assert forall|j: int| 0 <= j < earlier.len() implies is_portable(
                                session@.config,
                                #[trigger] earlier[j],
                            ) by {
                                assert(is_portable(session@.config, seen[j]));
                            }
                            assert(is_portable(session@.config, info@));
                        }
                    }
                    match session.collect_path(info) {
                        Ok(Some(node)) => {
                            let ghost added = node@;
                            nodes.push(node);
                            proof {
                                assert(tree_node_views(nodes@) =~= tree_node_views(before).push(
                                    added,
                                ));
                                assert(tree_node_views(nodes@).drop_last() =~= tree_node_views(
                                    before,
                                ));
                            }
                        },
                        Ok(None) => {},
                        Err(error) => {
                            return Err(error);
                        },
                    }
                },
                Err(failure) => {
                    if !failure.permission_denied {
                        return Err(CollectionError::IoError(copy(failure.message.as_str())));
                    }
                },
            }
            i = i + 1;
        }
        Ok((nodes, Vec::new()))
    }
}

impl Collector for Directory {
    open spec fn node(&self) -> NodeView {
        place_node(self@)
    }

    fn nodeid(&self) -> (r: &str) {
        self.nodeid.as_str()
    }

    fn parent(&self) -> (r: Option<&str>) {
        Some(self.parent_session.as_str())
    }

    fn path(&self) -> (r: &str) {
        self.path.as_str()
    }

    fn is_item(&self) -> (r: bool) {
        false
    }

    fn is_parametrized(&self) -> (r: bool) {
        false
    }

    fn has_uncertain_params(&self) -> (r: bool) {
        false
    }
}

/// Python module collector
#[derive(Debug)]
pub struct Module {
    pub path: String,
    pub nodeid: String,
    pub parent_session: String,
}

/// The node ID of a test: the module's, the class's name and the test's name.
pub open spec fn test_nodeid(
    module: Seq<char>,
    class: Option<Seq<char>>,
    name: Seq<char>,
) -> Seq<char> {
    match class {
        Some(class_name) => module + "::"@ + class_name + "::"@ + name,
        None => module + "::"@ + name,
    }
}

fn make_nodeid(module: &str, class: &Option<String>, name: &str) -> (r: String)
    ensures
        r@ == test_nodeid(module@, text_of(*class), name@),
{
    let mut r = copy(module);
    r.append("::");
    if let Some(class_name) = class {
        r.append(class_name.as_str());
        r.append("::");
    }
    r.append(name);
    r
}

/// The items that a test stands for: one for each of its cases, or itself.
pub open spec fn items_of(test: TestView, path: Seq<char>, module: Seq<char>) -> Seq<ItemView> {
    match test.cases_expansion {
        ExpansionView::Expanded(ids) => Seq::new(
            ids.len(),
            |i: int| item_of(test, test.name + seq!['['] + ids[i] + seq![']'], path, module),
        ),
        _ => seq![item_of(test, test.name, path, module)],
    }
}

/// The items of the tests, in order.
pub open spec fn all_items(
    tests: Seq<TestView>,
    path: Seq<char>,
    module: Seq<char>,
) -> Seq<ItemView>
    decreases tests.len(),
{
    if tests.len() == 0 {
        seq![]
    } else {
        all_items(tests.drop_last(), path, module) + items_of(tests.last(), path, module)
    }
}

/// The warnings on the tests that cannot be expanded, in order.
pub open spec fn expansion_warnings(
    tests: Seq<TestView>,
    path: Seq<char>,
    module: Seq<char>,
) -> Seq<WarningView>
    decreases tests.len(),
{
    if tests.len() == 0 {
        seq![]
    } else {
        let before = expansion_warnings(tests.drop_last(), path, module);
        match tests.last().cases_expansion {
            ExpansionView::CannotExpand(reason) => before.push(
                WarningView {
                    file_path: path,
                    line: 0,
                    message: warning_text(
                        test_nodeid(module, tests.last().class_name, tests.last().name),
                        reason,
                    ),
                },
            ),
            _ => before,
        }
    }
}

impl Module {
    pub open spec fn view(&self) -> PlaceView {
        PlaceView {
            path: self.path@,
            nodeid: self.nodeid@,
            session: self.parent_session@,
        }
    }

    pub fn new(path: &PathInfo, session: &Session) -> (r: Self)
        ensures
            r@ == place_of(session@, path@),
    {
        Module {
            path: copy(path.path.as_str()),
            nodeid: copy(path.relative.as_str()),
            parent_session: copy(session.nodeid.as_str()),
        }
    }

    /// The items of a module's tests. A test that cannot be expanded adds a warning behind those of
    /// discovery.
    pub fn collect(&self, tests: &[TestInfo], warnings: Vec<CollectionWarning>) -> (r: (
        Vec<Function>,
        Vec<CollectionWarning>,
    ))
        ensures
            item_views(r.0@) == all_items(test_views(tests@), self.path@, self.nodeid@),
            warning_views(r.1@) == warning_views(warnings@) + expansion_warnings(
                test_views(tests@),
                self.path@,
                self.nodeid@,
            ),
    {
        let ghost views = test_views(tests@);
        let ghost start = warning_views(warnings@);
        let path = self.path.as_str();
        let nodeid = self.nodeid.as_str();
        let mut functions: Vec<Function> = Vec::new();
        let mut all_warnings = warnings;
        let mut i: usize = 0;
        proof {
            assert(views.take(0) =~= Seq::<TestView>::empty());
            assert(item_views(functions@) =~= Seq::<ItemView>::empty());
            assert(start + expansion_warnings(views.take(0), path@, nodeid@) =~= start);
        }
        while i < tests.len()
            invariant
                i <= tests@.len(),
                views == test_views(tests@),
                item_views(functions@) == all_items(views.take(i as int), path@, nodeid@),
                warning_views(all_warnings@) == start + expansion_warnings(
                    views.take(i as int),
                    path@,
                    nodeid@,
                ),
            decreases tests@.len() - i,
        {
            let test = &tests[i];
            proof {
                assert(views.take(i + 1).drop_last() =~= views.take(i as int));
                assert(views.take(i + 1).last() == test@);
            }
            if let CasesExpansion::CannotExpand(reason) = &test.cases_expansion {
                let id = make_nodeid(nodeid, &test.class_name, test.name.as_str());
                let ghost before = all_warnings@;
                let warning = CollectionWarning {
                    file_path: copy(path),
                    line: 0,
                    message: format_cannot_expand_warning(id.as_str(), reason),
                };
                let ghost added = warning@;
                all_warnings.push(warning);
                assert(warning_views(all_warnings@) =~= warning_views(before).push(added));
                assert(warning_views(all_warnings@) =~= start + expansion_warnings(
                    views.take(i as int),
                    path@,
                    nodeid@,
                ).push(added));
            }
            let mut more = test_info_to_functions(test, path, nodeid);
            let ghost before = functions@;
            let ghost added = more@;
            functions.append(&mut more);
            assert(item_views(functions@) =~= item_views(before) + item_views(added));
            i = i + 1;
        }
        assert(views.take(views.len() as int) =~= views);
        (functions, all_warnings)
    }
}

impl Collector for Module {
    open spec fn node(&self) -> NodeView {
        place_node(self@)
    }

    fn nodeid(&self) -> (r: &str) {
        self.nodeid.as_str()
    }

    fn parent(&self) -> (r: Option<&str>) {
        Some(self.parent_session.as_str())
    }

    fn path(&self) -> (r: &str) {
        self.path.as_str()
    }

    fn is_item(&self) -> (r: bool) {
        false
    }

    fn is_parametrized(&self) -> (r: bool) {
        false
    }

    fn has_uncertain_params(&self) -> (r: bool) {
        false
    }
}

// ---------------------------------------------------------------------------------------------
// Functions
// ---------------------------------------------------------------------------------------------
/// Test function item
#[derive(Debug)]
pub struct Function {
    pub name: String,
    pub nodeid: String,
    pub location: Location,
    pub is_parametrized_flag: bool,
    pub has_uncertain_params: bool,
}

/// View of a [`Function`].
pub ghost struct ItemView {
    pub name: Seq<char>,
    pub nodeid: Seq<char>,
    pub location: LocationView,
    pub is_parametrized: bool,
    pub has_uncertain_params: bool,
}

/// The item of a test under a name.
pub open spec fn item_of(
    test: TestView,
    name: Seq<char>,
    path: Seq<char>,
    module: Seq<char>,
) -> ItemView {
    ItemView {
        name,
        nodeid: test_nodeid(module, test.class_name, name),
        location: LocationView { path, line: Some(test.line as usize), name },
        is_parametrized: test.is_parametrized,
        has_uncertain_params: test.has_uncertain_params,
    }
}

pub open spec fn item_views(list: Seq<Function>) -> Seq<ItemView> {
    Seq::new(list.len(), |i: int| list[i].view())
}

impl Function {
    pub open spec fn view(&self) -> ItemView {
        ItemView {
            name: self.name@,
            nodeid: self.nodeid@,
            location: self.location@,
            is_parametrized: self.is_parametrized_flag,
            has_uncertain_params: self.has_uncertain_params,
        }
    }
}

impl Collector for Function {
    open spec fn node(&self) -> NodeView {
        NodeView {
            nodeid: self.nodeid@,
            path: self.location.path@,
            parent: None,
            is_item: true,
            is_parametrized: self.is_parametrized_flag,
            has_uncertain_params: self.has_uncertain_params,
        }
    }

    fn nodeid(&self) -> (r: &str) {
        self.nodeid.as_str()
    }

    fn parent(&self) -> (r: Option<&str>) {
        None
    }

    fn path(&self) -> (r: &str) {
        self.location.path.as_str()
    }

    fn is_item(&self) -> (r: bool) {
        true
    }

    fn is_parametrized(&self) -> (r: bool) {
        self.is_parametrized_flag
    }

    fn has_uncertain_params(&self) -> (r: bool) {
        self.has_uncertain_params
    }
}

fn make_item(test: &TestInfo, name: String, path: &str, module: &str) -> (r: Function)
    ensures
        r@ == item_of(test@, name@, path@, module@),
{
    let nodeid = make_nodeid(module, &test.class_name, name.as_str());
    let again = copy(name.as_str());
    Function {
        name,
        nodeid,
        location: Location { path: copy(path), line: Some(test.line), name: again },
        is_parametrized_flag: test.is_parametrized,
        has_uncertain_params: test.has_uncertain_params,
    }
}

/// Convert TestInfo to Function collector
pub fn test_info_to_function(test: &TestInfo, path: &str, module_nodeid: &str) -> (r: Function)
    ensures
        r@ == item_of(test@, test.name@, path@, module_nodeid@),
{
    make_item(test, copy(test.name.as_str()), path, module_nodeid)
}

/// Convert TestInfo to Function collectors: one for each of its expanded cases, or one.
pub fn test_info_to_functions(test: &TestInfo, path: &str, module_nodeid: &str) -> (r: Vec<
    Function,
>)
    ensures
        item_views(r@) == items_of(test@, path@, module_nodeid@),
{
    let mut r: Vec<Function> = Vec::new();
    match &test.cases_expansion {
        CasesExpansion::Expanded(cases) => {
            let ghost ids = case_ids(cases@);
            let ghost wanted = items_of(test@, path@, module_nodeid@);
            let mut i: usize = 0;
            while i < cases.len()
                invariant
                    i <= cases@.len(),
                    ids == case_ids(cases@),
                    test@.cases_expansion == ExpansionView::Expanded(ids),
                    wanted == items_of(test@, path@, module_nodeid@),
                    r@.len() == i,
                    forall|j: int| 0 <= j < i ==> (#[trigger] r@[j])@ == wanted[j],
                decreases cases@.len() - i,
            {
                let mut name = copy(test.name.as_str());
                name.push('[');
                name.append(cases[i].case_id.as_str());
                name.push(']');
                assert(name@ =~= test.name@ + seq!['['] + ids[i as int] + seq![']']);
                r.push(make_item(test, name, path, module_nodeid));
                i = i + 1;
            }
            assert(item_views(r@) =~= wanted);
        },
        _ => {
            r.push(test_info_to_function(test, path, module_nodeid));
            assert(item_views(r@) =~= items_of(test@, path@, module_nodeid@));
        },
    }
    r
}

impl Collector for Node {
    open spec fn node(&self) -> NodeView {
        match self {
            Node::Directory(dir) => dir.node(),
            Node::Module(module) => module.node(),
            Node::Function(function) => function.node(),
        }
    }

    fn nodeid(&self) -> (r: &str) {
        match self {
            Node::Directory(dir) => dir.nodeid(),
            Node::Module(module) => module.nodeid(),
            Node::Function(function) => function.nodeid(),
        }
    }

    fn parent(&self) -> (r: Option<&str>) {
        match self {
            Node::Directory(dir) => dir.parent(),
            Node::Module(module) => module.parent(),
            Node::Function(function) => function.parent(),
        }
    }

    fn path(&self) -> (r: &str) {
        match self {
            Node::Directory(dir) => dir.path(),
            Node::Module(module) => module.path(),
            Node::Function(function) => function.path(),
        }
    }

    fn is_item(&self) -> (r: bool) {
        match self {
            Node::Directory(dir) => dir.is_item(),
            Node::Module(module) => module.is_item(),
            Node::Function(function) => function.is_item(),
        }
    }

    fn is_parametrized(&self) -> (r: bool) {
        match self {
            Node::Directory(dir) => dir.is_parametrized(),
            Node::Module(module) => module.is_parametrized(),
            Node::Function(function) => function.is_parametrized(),
        }
    }

    fn has_uncertain_params(&self) -> (r: bool) {
        match self {
            Node::Directory(dir) => dir.has_uncertain_params(),
            Node::Module(module) => module.has_uncertain_params(),
            Node::Function(function) => function.has_uncertain_params(),
        }
    }
}

} // verus!
