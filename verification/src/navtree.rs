//! The Navigator's tree: folders, files and the headings inside each file.
//! Each directory has a list of rows, folders before files and then by
//! name without regard to case; a directory's list (and its folder row in
//! the parent) comes into being the first time a file under it is added.
//! The tree reports every change as an edit, which a view applies in order
//! to its own lists.

use vstd::prelude::*;
use crate::text::{chars_eq, chars_of, lowercase_chars, seqs_of, str_lowercase, string_of};
use crate::headings::Heading;

verus! {

/// A row of the Navigator.
#[derive(Debug, Clone)]
pub enum Node {
    /// A folder; `dir` is the number of its own list of rows.
    Folder { name: String, dir: usize },
    /// A file; `path` is where it lives.
    File { name: String, path: String },
    /// A heading of the file at `file`.
    Heading { text: String, id: String, level: u8, file: String },
}

pub enum NodeView {
    Folder(Seq<char>, nat),
    File(Seq<char>, Seq<char>),
    Heading(Seq<char>, Seq<char>, nat, Seq<char>),
}

impl View for Node {
    type V = NodeView;

    open spec fn view(&self) -> NodeView {
        match self {
            Node::Folder { name, dir } => NodeView::Folder(name@, *dir as nat),
            Node::File { name, path } => NodeView::File(name@, path@),
            Node::Heading { text, id, level, file } => NodeView::Heading(
                text@,
                id@,
                *level as nat,
                file@,
            ),
        }
    }
}

/// Folders sort first, then files, then headings.
pub open spec fn rank(n: NodeView) -> nat {
    match n {
        NodeView::Folder(..) => 0,
        NodeView::File(..) => 1,
        NodeView::Heading(..) => 2,
    }
}

/// The name a row sorts by: its name (or heading text) in lowercase.
pub open spec fn sort_name(n: NodeView) -> Seq<char> {
    match n {
        NodeView::Folder(name, _) => str_lowercase(name),
        NodeView::File(name, _) => str_lowercase(name),
        NodeView::Heading(text, _, _, _) => str_lowercase(text),
    }
}

/// Lexicographic order of character sequences by code point (the order of
/// `String`s).
pub open spec fn seq_lt(a: Seq<char>, b: Seq<char>) -> bool
    decreases a.len(),
{
    if a.len() == 0 {
        b.len() > 0
    } else if b.len() == 0 {
        false
    } else if a[0] != b[0] {
        (a[0] as int) < (b[0] as int)
    } else {
        seq_lt(a.drop_first(), b.drop_first())
    }
}

/// Whether row `a` sorts strictly before row `b`.
pub open spec fn before(a: NodeView, b: NodeView) -> bool {
    rank(a) < rank(b) || (rank(a) == rank(b) && seq_lt(sort_name(a), sort_name(b)))
}

/// Rows in Navigator order: none sorts before an earlier one.
pub open spec fn rows_sorted(rows: Seq<NodeView>) -> bool {
    forall|i: int, j: int| 0 <= i < j < rows.len() ==> !before(#[trigger] rows[j], #[trigger] rows[i])
}

pub proof fn lemma_seq_lt_irreflexive(a: Seq<char>)
    ensures
        !seq_lt(a, a),
    decreases a.len(),
{
    if a.len() > 0 {
        lemma_seq_lt_irreflexive(a.drop_first());
    }
}

pub proof fn lemma_seq_lt_asymmetric(a: Seq<char>, b: Seq<char>)
    ensures
        !(seq_lt(a, b) && seq_lt(b, a)),
    decreases a.len(),
{
    if a.len() > 0 && b.len() > 0 && a[0] == b[0] {
        lemma_seq_lt_asymmetric(a.drop_first(), b.drop_first());
    }
}

pub proof fn lemma_seq_lt_transitive(a: Seq<char>, b: Seq<char>, c: Seq<char>)
    requires
        seq_lt(a, b),
        seq_lt(b, c),
    ensures
        seq_lt(a, c),
    decreases a.len(),
{
    if a.len() > 0 && b.len() > 0 && c.len() > 0 && a[0] == b[0] && b[0] == c[0] {
        lemma_seq_lt_transitive(a.drop_first(), b.drop_first(), c.drop_first());
    }
}

pub proof fn lemma_before_order(a: NodeView, b: NodeView, c: NodeView)
    ensures
        !before(a, a),
        !(before(a, b) && before(b, a)),
        before(a, b) && before(b, c) ==> before(a, c),
{
    lemma_seq_lt_irreflexive(sort_name(a));
    lemma_seq_lt_asymmetric(sort_name(a), sort_name(b));
    if before(a, b) && before(b, c) && rank(a) == rank(b) && rank(b) == rank(c) {
        lemma_seq_lt_transitive(sort_name(a), sort_name(b), sort_name(c));
    }
}

/// Where `x` goes in `rows`: before the first row it sorts before, from
/// index `k` on; after every row when there is none.
pub open spec fn insert_pos(rows: Seq<NodeView>, x: NodeView, k: int) -> int
    decreases rows.len() - k,
{
    if k < 0 || k >= rows.len() {
        rows.len() as int
    } else if before(x, rows[k]) {
        k
    } else {
        insert_pos(rows, x, k + 1)
    }
}

pub proof fn lemma_insert_pos(rows: Seq<NodeView>, x: NodeView, k: int)
    requires
        0 <= k <= rows.len(),
    ensures
        k <= insert_pos(rows, x, k) <= rows.len(),
        forall|i: int| k <= i < insert_pos(rows, x, k) ==> !before(x, #[trigger] rows[i]),
        insert_pos(rows, x, k) < rows.len() ==> before(x, rows[insert_pos(rows, x, k)]),
    decreases rows.len() - k,
{
    if k < rows.len() && !before(x, rows[k]) {
        lemma_insert_pos(rows, x, k + 1);
    }
}

/// Placing a row at its position keeps the rows in Navigator order.
pub proof fn lemma_insert_sorted(rows: Seq<NodeView>, x: NodeView)
    requires
        rows_sorted(rows),
    ensures
        rows_sorted(rows.insert(insert_pos(rows, x, 0), x)),
{
    lemma_insert_pos(rows, x, 0);
    let k = insert_pos(rows, x, 0);
    let r = rows.insert(k, x);
    assert forall|i: int, j: int| 0 <= i < j < r.len() implies !before(#[trigger] r[j], #[trigger] r[i]) by {
        lemma_before_order(x, x, x);
        if j < k {
            assert(r[i] == rows[i] && r[j] == rows[j]);
        } else if j == k {
            assert(r[i] == rows[i]);
            lemma_before_order(x, rows[i], x);
        } else if i == k {
            assert(r[j] == rows[j - 1]);
            if k < rows.len() {
                lemma_before_order(rows[j - 1], x, rows[k]);
                if j - 1 > k {
                    assert(!before(rows[j - 1], rows[k]));
                }
            }
        } else if i < k {
            assert(r[i] == rows[i] && r[j] == rows[j - 1]);
        } else {
            assert(r[i] == rows[i - 1] && r[j] == rows[j - 1]);
        }
    }
}

// ---------------------------------------------------------------------
// the tree
// ---------------------------------------------------------------------

/// A change to the lists of rows.
#[derive(Debug, Clone)]
pub enum TreeEdit {
    /// A new, empty list is added, numbered after the existing ones.
    NewList,
    /// `node` is inserted into list `list` at `position`.
    Insert { list: usize, position: usize, node: Node },
}

pub enum EditView {
    NewList,
    Insert(nat, nat, NodeView),
}

impl View for TreeEdit {
    type V = EditView;

    open spec fn view(&self) -> EditView {
        match self {
            TreeEdit::NewList => EditView::NewList,
            TreeEdit::Insert { list, position, node } => EditView::Insert(
                *list as nat,
                *position as nat,
                node@,
            ),
        }
    }
}

/// The abstract tree: the directory (as path components below the root)
/// each list belongs to, and the rows of each list.
pub struct TreeView {
    pub dirs: Seq<Seq<Seq<char>>>,
    pub rows: Seq<Seq<NodeView>>,
}

/// The lists of the Navigator. List 0 is the root directory.
pub struct NavTree {
    dirs: Vec<Vec<Vec<char>>>,
    rows: Vec<Vec<Node>>,
}

pub open spec fn dirs_view(d: Seq<Vec<Vec<char>>>) -> Seq<Seq<Seq<char>>> {
    d.map_values(|p: Vec<Vec<char>>| seqs_of(p@))
}

pub open spec fn nodes_view(v: Seq<Node>) -> Seq<NodeView> {
    v.map_values(|n: Node| n@)
}

pub open spec fn rows_view(r: Seq<Vec<Node>>) -> Seq<Seq<NodeView>> {
    r.map_values(|v: Vec<Node>| nodes_view(v@))
}

/// A well-formed tree: one list per directory, the root first, no
/// directory twice, every list in Navigator order.
pub open spec fn tree_wf(t: TreeView) -> bool {
    &&& t.dirs.len() == t.rows.len()
    &&& t.dirs.len() > 0
    &&& t.dirs[0] == Seq::<Seq<char>>::empty()
    &&& forall|i: int, j: int| 0 <= i < j < t.dirs.len() ==> t.dirs[i] != t.dirs[j]
    &&& forall|i: int| 0 <= i < t.rows.len() ==> rows_sorted(#[trigger] t.rows[i])
}

/// The list of directory `path`, if it has one.
pub open spec fn find_dir(dirs: Seq<Seq<Seq<char>>>, path: Seq<Seq<char>>, k: int) -> Option<nat>
    decreases dirs.len() - k,
{
    if k < 0 || k >= dirs.len() {
        None
    } else if dirs[k] == path {
        Some(k as nat)
    } else {
        find_dir(dirs, path, k + 1)
    }
}

pub proof fn lemma_find_dir(dirs: Seq<Seq<Seq<char>>>, path: Seq<Seq<char>>, k: int)
    requires
        0 <= k,
    ensures
        find_dir(dirs, path, k) matches Some(i) ==> k <= i < dirs.len() && dirs[i as int] == path,
        find_dir(dirs, path, k) is None ==> forall|i: int| k <= i < dirs.len() ==> dirs[i] != path,
    decreases dirs.len() - k,
{
    if k < dirs.len() && dirs[k] != path {
        lemma_find_dir(dirs, path, k + 1);
    }
}

/// `node` inserted at its place in list `list`.
pub open spec fn place(t: TreeView, list: nat, node: NodeView) -> (TreeView, EditView) {
    let k = insert_pos(t.rows[list as int], node, 0);
    (
        TreeView { dirs: t.dirs, rows: t.rows.update(list as int, t.rows[list as int].insert(k, node)) },
        EditView::Insert(list, k as nat, node),
    )
}

/// The list of directory `path`, made (with the lists and folder rows of
/// its ancestors) when it is missing: a new list first, then the lists its
/// parent needs, then its folder row in the parent's list.
pub open spec fn ensure_spec(t: TreeView, path: Seq<Seq<char>>) -> (TreeView, nat, Seq<EditView>)
    decreases path.len(),
{
    match find_dir(t.dirs, path, 0) {
        Some(i) => (t, i, Seq::empty()),
        None => {
            let idx = t.dirs.len();
            let t1 = TreeView { dirs: t.dirs.push(path), rows: t.rows.push(Seq::empty()) };
            if path.len() == 0 {
                (t1, idx, seq![EditView::NewList])
            } else {
                let (t2, p, e2) = ensure_spec(t1, path.drop_last());
                let (t3, e3) = place(t2, p, NodeView::Folder(path.last(), idx));
                (t3, idx, seq![EditView::NewList] + e2 + seq![e3])
            }
        },
    }
}

/// A file added under directory `dir` (path components below the root).
pub open spec fn add_file_spec(t: TreeView, dir: Seq<Seq<char>>, name: Seq<char>, path: Seq<char>) -> (
    TreeView,
    Seq<EditView>,
) {
    let (t1, p, e1) = ensure_spec(t, dir);
    let (t2, e2) = place(t1, p, NodeView::File(name, path));
    (t2, e1.push(e2))
}

impl View for NavTree {
    type V = TreeView;

    closed spec fn view(&self) -> TreeView {
        TreeView { dirs: dirs_view(self.dirs@), rows: rows_view(self.rows@) }
    }
}

fn node_copy(n: &Node) -> (r: Node)
    ensures
        r@ == n@,
{
    match n {
        Node::Folder { name, dir } => Node::Folder { name: string_of(&chars_of(name.as_str())), dir: *dir },
        Node::File { name, path } => Node::File {
            name: string_of(&chars_of(name.as_str())),
            path: string_of(&chars_of(path.as_str())),
        },
        Node::Heading { text, id, level, file } => Node::Heading {
            text: string_of(&chars_of(text.as_str())),
            id: string_of(&chars_of(id.as_str())),
            level: *level,
            file: string_of(&chars_of(file.as_str())),
        },
    }
}

/// Code-point order of two character vectors (see `seq_lt`).
fn chars_lt(a: &Vec<char>, b: &Vec<char>) -> (r: bool)
    ensures
        r == seq_lt(a@, b@),
{
    let mut i: usize = 0;
    assert(a@.skip(0) == a@ && b@.skip(0) == b@);
    while i < a.len() && i < b.len() && a[i] == b[i]
        invariant
            i <= a.len(),
            i <= b.len(),
            seq_lt(a@, b@) == seq_lt(a@.skip(i as int), b@.skip(i as int)),
        decreases a.len() - i,
    {
        assert(a@.skip(i as int).drop_first() == a@.skip(i + 1));
        assert(b@.skip(i as int).drop_first() == b@.skip(i + 1));
        i += 1;
    }
    if i == a.len() {
        i < b.len()
    } else if i == b.len() {
        false
    } else {
        assert(a@.skip(i as int)[0] == a@[i as int]);
        assert(b@.skip(i as int)[0] == b@[i as int]);
        crate::text::code_of(a[i]) < crate::text::code_of(b[i])
    }
}

fn node_rank(n: &Node) -> (r: u8)
    ensures
        r == rank(n@),
{
    match n {
        Node::Folder { .. } => 0,
        Node::File { .. } => 1,
        Node::Heading { .. } => 2,
    }
}

fn node_sort_name(n: &Node) -> (r: Vec<char>)
    ensures
        r@ == sort_name(n@),
{
    match n {
        Node::Folder { name, .. } => lowercase_chars(&chars_of(name.as_str())),
        Node::File { name, .. } => lowercase_chars(&chars_of(name.as_str())),
        Node::Heading { text, .. } => lowercase_chars(&chars_of(text.as_str())),
    }
}

/// Whether row `a` sorts before row `b` (see `before`).
fn node_before(a: &Node, b: &Node) -> (r: bool)
    ensures
        r == before(a@, b@),
{
    let ra = node_rank(a);
    let rb = node_rank(b);
    if ra != rb {
        return ra < rb;
    }
    chars_lt(&node_sort_name(a), &node_sort_name(b))
}

/// A copy of `src` with `node` inserted at `k`.
fn inserted_copy(src: &Vec<Node>, k: usize, node: Node) -> (r: Vec<Node>)
    requires
        k <= src.len(),
    ensures
        nodes_view(r@) == nodes_view(src@).insert(k as int, node@),
{
    let mut r: Vec<Node> = Vec::new();
    let mut i: usize = 0;
    while i < k
        invariant
            i <= k <= src.len(),
            nodes_view(r@) == nodes_view(src@).take(i as int),
        decreases k - i,
    {
        let ghost old_r = r@;
        let c = node_copy(&src[i]);
        r.push(c);
        assert(nodes_view(r@) =~= nodes_view(old_r).push(src@[i as int]@));
        i += 1;
        assert(nodes_view(r@) =~= nodes_view(src@).take(i as int));
    }
    let ghost nv = node@;
    let ghost old_r = r@;
    r.push(node);
    assert(nodes_view(r@) =~= nodes_view(old_r).push(nv));
    assert(nodes_view(src@).subrange(k as int, k as int) =~= Seq::<NodeView>::empty());
    while i < src.len()
        invariant
            k <= i <= src.len(),
            nodes_view(r@) == nodes_view(src@).take(k as int).push(nv) + nodes_view(src@).subrange(
                k as int,
                i as int,
            ),
        decreases src.len() - i,
    {
        let ghost old_r = r@;
        let c = node_copy(&src[i]);
        r.push(c);
        assert(nodes_view(r@) =~= nodes_view(old_r).push(src@[i as int]@));
        i += 1;
        assert(nodes_view(r@) =~= nodes_view(src@).take(k as int).push(nv) + nodes_view(
            src@,
        ).subrange(k as int, i as int));
    }
    assert(nodes_view(r@) =~= nodes_view(src@).insert(k as int, nv));
    r
}

fn paths_eq(a: &Vec<Vec<char>>, b: &Vec<Vec<char>>) -> (r: bool)
    ensures
        r == (seqs_of(a@) == seqs_of(b@)),
{
    if a.len() != b.len() {
        return false;
    }
    let mut i: usize = 0;
    while i < a.len()
        invariant
            i <= a.len() == b.len(),
            seqs_of(a@).take(i as int) == seqs_of(b@).take(i as int),
        decreases a.len() - i,
    {
        if !chars_eq(&a[i], &b[i]) {
            assert(seqs_of(a@)[i as int] != seqs_of(b@)[i as int]);
            return false;
        }
        i += 1;
        assert(seqs_of(a@).take(i as int) =~= seqs_of(b@).take(i as int));
    }
    assert(seqs_of(a@).take(a.len() as int) == seqs_of(a@));
    assert(seqs_of(b@).take(b.len() as int) == seqs_of(b@));
    true
}

fn path_copy(p: &Vec<Vec<char>>, n: usize) -> (r: Vec<Vec<char>>)
    requires
        n <= p.len(),
    ensures
        seqs_of(r@) == seqs_of(p@).take(n as int),
{
    let mut r: Vec<Vec<char>> = Vec::new();
    let mut i: usize = 0;
    while i < n
        invariant
            i <= n <= p.len(),
            seqs_of(r@) == seqs_of(p@).take(i as int),
        decreases n - i,
    {
        let c = crate::text::slice_of(&p[i], 0, p[i].len());
        assert(c@ == p@[i as int]@);
        let ghost old_r = r@;
        r.push(c);
        assert(seqs_of(r@) =~= seqs_of(old_r).push(p@[i as int]@));
        i += 1;
        assert(seqs_of(r@) =~= seqs_of(p@).take(i as int));
    }
    r
}

impl NavTree {
    /// The invariant every operation keeps.
    pub closed spec fn wf(&self) -> bool {
        tree_wf(self@)
    }

    /// What the invariant says of the abstract tree.
    pub proof fn lemma_wf(&self)
        requires
            self.wf(),
        ensures
            tree_wf(self@),
    {
    }

    /// A tree with the root's empty list only.
    pub fn new() -> (t: NavTree)
        ensures
            t.wf(),
            t@.dirs == seq![Seq::<Seq<char>>::empty()],
            t@.rows == seq![Seq::<NodeView>::empty()],
    {
        let mut dirs: Vec<Vec<Vec<char>>> = Vec::new();
        dirs.push(Vec::new());
        let mut rows: Vec<Vec<Node>> = Vec::new();
        rows.push(Vec::new());
        let t = NavTree { dirs, rows };
        assert(seqs_of(t.dirs@[0]@) =~= Seq::<Seq<char>>::empty());
        assert(nodes_view(t.rows@[0]@) =~= Seq::<NodeView>::empty());
        assert(t@.dirs =~= seq![Seq::<Seq<char>>::empty()]);
        assert(t@.rows =~= seq![Seq::<NodeView>::empty()]);
        t
    }

    /// Number of lists.
    pub fn list_count(&self) -> (r: usize)
        ensures
            r == self@.rows.len(),
    {
        self.rows.len()
    }

    /// The rows of list `list`.
    pub fn list_rows(&self, list: usize) -> (r: Vec<Node>)
        requires
            list < self@.rows.len(),
        ensures
            nodes_view(r@) == self@.rows[list as int],
    {
        let src = &self.rows[list];
        let mut r: Vec<Node> = Vec::new();
        let mut i: usize = 0;
        while i < src.len()
            invariant
                i <= src.len(),
                src == &self.rows@[list as int],
                list < self.rows.len(),
                nodes_view(r@) == nodes_view(src@).take(i as int),
            decreases src.len() - i,
        {
            let ghost old_r = r@;
            let c = node_copy(&src[i]);
            r.push(c);
            assert(nodes_view(r@) =~= nodes_view(old_r).push(src@[i as int]@));
            i += 1;
            assert(nodes_view(r@) =~= nodes_view(src@).take(i as int));
        }
        assert(nodes_view(src@).take(src.len() as int) == nodes_view(src@));
        r
    }

    fn find(&self, path: &Vec<Vec<char>>) -> (r: Option<usize>)
        ensures
            r matches Some(i) ==> find_dir(self@.dirs, seqs_of(path@), 0) == Some(i as nat),
            r is None ==> find_dir(self@.dirs, seqs_of(path@), 0) is None,
    {
        let mut k: usize = 0;
        while k < self.dirs.len()
            invariant
                k <= self.dirs.len(),
                find_dir(self@.dirs, seqs_of(path@), 0) == find_dir(self@.dirs, seqs_of(path@), k as int),
            decreases self.dirs.len() - k,
        {
            assert(self@.dirs[k as int] == seqs_of(self.dirs@[k as int]@));
            if paths_eq(&self.dirs[k], path) {
                return Some(k);
            }
            k += 1;
        }
        None
    }

    /// Inserts `node` at its place in list `list` and reports the edit.
    fn place_node(&mut self, list: usize, node: Node, edits: &mut Vec<TreeEdit>)
        requires
            list < old(self)@.rows.len(),
            old(self)@.rows.len() == old(self)@.dirs.len(),
        ensures
            (final(self)@, final(edits)@.last()@) == place(old(self)@, list as nat, node@),
            final(edits)@.len() == old(edits)@.len() + 1,
            final(edits)@.drop_last() == old(edits)@,
            final(self)@.rows.len() == final(self)@.dirs.len(),
    {
        let ghost t0 = self@;
        let ghost rows0 = t0.rows[list as int];
        let mut k: usize = 0;
        let n = self.rows[list].len();
        assert(nodes_view(self.rows@[list as int]@) == rows0);
        while k < n && !node_before(&node, &self.rows[list][k])
            invariant
                k <= n,
                n == self.rows@[list as int].len(),
                list < self.rows.len(),
                self@ == t0,
                rows0 == nodes_view(self.rows@[list as int]@),
                insert_pos(rows0, node@, 0) == insert_pos(rows0, node@, k as int),
            decreases n - k,
        {
            k += 1;
        }
        let ghost nv = node@;
        let copy = node_copy(&node);
        let list_rows = inserted_copy(&self.rows[list], k, node);
        let ghost new_rows = nodes_view(list_rows@);
        assert(new_rows =~= rows0.insert(k as int, nv));
        self.rows.set(list, list_rows);
        edits.push(TreeEdit::Insert { list, position: k, node: copy });
        assert(self@.rows =~= t0.rows.update(list as int, rows0.insert(k as int, nv)));
        assert(self@.dirs == t0.dirs);
    }

    /// The list of directory `path`, made when missing (see `ensure_spec`).
    fn ensure_dir(&mut self, path: &Vec<Vec<char>>, edits: &mut Vec<TreeEdit>) -> (r: usize)
        requires
            old(self)@.rows.len() == old(self)@.dirs.len(),
        ensures
            ({
                let (t, i, e) = ensure_spec(old(self)@, seqs_of(path@));
                &&& final(self)@ == t
                &&& r == i
                &&& final(edits)@.map_values(|x: TreeEdit| x@) == old(edits)@.map_values(
                    |x: TreeEdit| x@,
                ) + e
            }),
            final(self)@.rows.len() == final(self)@.dirs.len(),
            r < final(self)@.rows.len(),
        decreases path.len(),
    {
        let ghost t0 = self@;
        let ghost pv = seqs_of(path@);
        let ghost e0 = edits@.map_values(|x: TreeEdit| x@);
        match self.find(path) {
            Some(i) => {
                proof {
                    lemma_find_dir(t0.dirs, pv, 0);
                }
                assert(e0 + Seq::<EditView>::empty() =~= e0);
                i
            },
            None => {
                let idx = self.dirs.len();
                self.dirs.push(path_copy(path, path.len()));
                let empty: Vec<Node> = Vec::new();
                assert(nodes_view(empty@) =~= Seq::<NodeView>::empty());
                self.rows.push(empty);
                edits.push(TreeEdit::NewList);
                assert(seqs_of(path@).take(path.len() as int) == seqs_of(path@));
                let ghost t1 = self@;
                assert(t1.dirs =~= t0.dirs.push(pv));
                assert(t1.rows =~= t0.rows.push(Seq::<NodeView>::empty()));
                let ghost e1 = edits@.map_values(|x: TreeEdit| x@);
                assert(e1 =~= e0 + seq![EditView::NewList]);
                if path.len() == 0 {
                    return idx;
                }
                let parent = path_copy(path, path.len() - 1);
                assert(seqs_of(parent@) =~= pv.drop_last());
                let p = self.ensure_dir(&parent, edits);
                let ghost t2 = self@;
                let ghost e2 = edits@.map_values(|x: TreeEdit| x@);
                let last = &path[path.len() - 1];
                let name = string_of(last);
                assert(name@ == pv.last());
                let ghost before_place = edits@;
                self.place_node(p, Node::Folder { name, dir: idx }, edits);
                assert(edits@.map_values(|x: TreeEdit| x@) =~= before_place.map_values(
                    |x: TreeEdit| x@,
                ).push(edits@.last()@));
                let ghost (t2s, p2, es) = ensure_spec(t1, pv.drop_last());
                assert(e2 == e1 + es);
                assert(edits@.map_values(|x: TreeEdit| x@) =~= e0 + (seq![EditView::NewList] + es
                    + seq![edits@.last()@]));
                idx
            },
        }
    }

    /// Adds the file `name` at `path` under directory `dir` (path
    /// components below the root), making the directory's list and folder
    /// rows as needed; the result is the edits made, in order.
    pub fn add_file(&mut self, dir: &Vec<String>, name: String, path: String) -> (edits: Vec<TreeEdit>)
        requires
            old(self).wf(),
        ensures
            ({
                let (t, e) = add_file_spec(old(self)@, dir@.map_values(|s: String| s@), name@, path@);
                &&& final(self)@ == t
                &&& edits@.map_values(|x: TreeEdit| x@) == e
            }),
    {
        let mut comps: Vec<Vec<char>> = Vec::new();
        let mut i: usize = 0;
        while i < dir.len()
            invariant
                i <= dir.len(),
                seqs_of(comps@) == dir@.map_values(|s: String| s@).take(i as int),
            decreases dir.len() - i,
        {
            let c = chars_of(dir[i].as_str());
            let ghost old_c = comps@;
            comps.push(c);
            assert(seqs_of(comps@) =~= seqs_of(old_c).push(dir@[i as int]@));
            i += 1;
            assert(seqs_of(comps@) =~= dir@.map_values(|s: String| s@).take(i as int));
        }
        assert(dir@.map_values(|s: String| s@).take(dir.len() as int) == dir@.map_values(
            |s: String| s@,
        ));
        let mut edits: Vec<TreeEdit> = Vec::new();
        assert(self@.rows.len() == self@.dirs.len());
        let p = self.ensure_dir(&comps, &mut edits);
        let ghost e1 = edits@;
        self.place_node(p, Node::File { name, path }, &mut edits);
        assert(edits@.map_values(|x: TreeEdit| x@) =~= e1.map_values(|x: TreeEdit| x@).push(
            edits@.last()@,
        ));
        assert(Seq::<EditView>::empty() + e1.map_values(|x: TreeEdit| x@) =~= e1.map_values(
            |x: TreeEdit| x@,
        ));
        edits
    }
}

// ---------------------------------------------------------------------
// laws of the tree
// ---------------------------------------------------------------------

proof fn lemma_place(t: TreeView, list: nat, node: NodeView)
    requires
        tree_wf(t),
        list < t.rows.len(),
    ensures
        tree_wf(place(t, list, node).0),
        place(t, list, node).0.dirs == t.dirs,
        place(t, list, node).0.rows[list as int].contains(node),
        forall|j: int| 0 <= j < t.rows.len() && j != list ==> place(t, list, node).0.rows[j] == t.rows[j],
{
    let rows = t.rows[list as int];
    lemma_insert_pos(rows, node, 0);
    lemma_insert_sorted(rows, node);
    let k = insert_pos(rows, node, 0);
    let t2 = place(t, list, node).0;
    assert(t2.rows[list as int][k] == node);
    assert forall|i: int| 0 <= i < t2.rows.len() implies rows_sorted(#[trigger] t2.rows[i]) by {
        if i != list {
            assert(t2.rows[i] == t.rows[i]);
        }
    }
}

proof fn lemma_find_unique(dirs: Seq<Seq<Seq<char>>>, path: Seq<Seq<char>>, i: int)
    requires
        0 <= i < dirs.len(),
        dirs[i] == path,
        forall|a: int, b: int| 0 <= a < b < dirs.len() ==> dirs[a] != dirs[b],
    ensures
        find_dir(dirs, path, 0) == Some(i as nat),
{
    lemma_find_dir(dirs, path, 0);
}

/// Making a directory's list keeps the tree well formed, keeps every
/// existing list at its number, and yields a list of that directory.
pub proof fn lemma_ensure(t: TreeView, path: Seq<Seq<char>>)
    requires
        tree_wf(t),
    ensures
        ({
            let (t2, i, _) = ensure_spec(t, path);
            &&& tree_wf(t2)
            &&& t.dirs.len() <= t2.dirs.len()
            &&& t2.dirs.take(t.dirs.len() as int) == t.dirs
            &&& i < t2.dirs.len()
            &&& t2.dirs[i as int] == path
        }),
    decreases path.len(),
{
    lemma_find_dir(t.dirs, path, 0);
    match find_dir(t.dirs, path, 0) {
        Some(i) => {
            assert(t.dirs.take(t.dirs.len() as int) == t.dirs);
        },
        None => {
            let idx = t.dirs.len();
            let t1 = TreeView { dirs: t.dirs.push(path), rows: t.rows.push(Seq::empty()) };
            assert(tree_wf(t1)) by {
                assert forall|i: int| 0 <= i < t1.rows.len() implies rows_sorted(#[trigger] t1.rows[i]) by {
                    if i < t.rows.len() {
                        assert(t1.rows[i] == t.rows[i]);
                    }
                }
                assert forall|a: int, b: int| 0 <= a < b < t1.dirs.len() implies t1.dirs[a] != t1.dirs[b] by {
                    if b == idx {
                        assert(t1.dirs[a] == t.dirs[a]);
                    } else {
                        assert(t1.dirs[a] == t.dirs[a] && t1.dirs[b] == t.dirs[b]);
                    }
                }
            }
            if path.len() > 0 {
                lemma_ensure(t1, path.drop_last());
                let (t2, p, e2) = ensure_spec(t1, path.drop_last());
                lemma_place(t2, p, NodeView::Folder(path.last(), idx));
                let t3 = place(t2, p, NodeView::Folder(path.last(), idx)).0;
                assert(t2.dirs[idx as int] == t1.dirs.take(t1.dirs.len() as int)[idx as int]);
                assert(t3.dirs.take(t.dirs.len() as int) =~= t.dirs) by {
                    assert forall|j: int| 0 <= j < t.dirs.len() implies t3.dirs[j] == t.dirs[j] by {
                        assert(t2.dirs.take(t1.dirs.len() as int)[j] == t1.dirs[j]);
                    }
                }
            } else {
                assert(t1.dirs.take(t.dirs.len() as int) =~= t.dirs);
            }
        },
    }
}

/// Adding a file keeps the tree well formed (one list per directory, no
/// directory twice, every list folders first and then by name without
/// regard to case), keeps every existing list at its number, and puts the
/// file in the list of its directory.
pub proof fn lemma_add_file(t: TreeView, dir: Seq<Seq<char>>, name: Seq<char>, path: Seq<char>)
    requires
        tree_wf(t),
    ensures
        ({
            let t2 = add_file_spec(t, dir, name, path).0;
            &&& tree_wf(t2)
            &&& t2.dirs.take(t.dirs.len() as int) == t.dirs
            &&& match find_dir(t2.dirs, dir, 0) {
                Some(i) => t2.rows[i as int].contains(NodeView::File(name, path)),
                None => false,
            }
        }),
{
    lemma_ensure(t, dir);
    let (t1, p, e1) = ensure_spec(t, dir);
    lemma_place(t1, p, NodeView::File(name, path));
    let t2 = place(t1, p, NodeView::File(name, path)).0;
    lemma_find_unique(t2.dirs, dir, p as int);
}

// ---------------------------------------------------------------------
// heading rows and activation
// ---------------------------------------------------------------------

/// The heading rows of the file at `file`, in document order.
pub fn heading_rows(file: &str, hs: &Vec<Heading>) -> (r: Vec<Node>)
    ensures
        r.len() == hs.len(),
        forall|k: int| 0 <= k < hs.len() ==> #[trigger] r@[k]@ == NodeView::Heading(
            hs@[k].text@,
            hs@[k].id@,
            hs@[k].level as nat,
            file@,
        ),
{
    let mut r: Vec<Node> = Vec::new();
    let mut i: usize = 0;
    while i < hs.len()
        invariant
            i <= hs.len(),
            r.len() == i,
            forall|k: int| 0 <= k < i ==> #[trigger] r@[k]@ == NodeView::Heading(
                hs@[k].text@,
                hs@[k].id@,
                hs@[k].level as nat,
                file@,
            ),
        decreases hs.len() - i,
    {
        let h = &hs[i];
        r.push(
            Node::Heading {
                text: string_of(&chars_of(h.text.as_str())),
                id: string_of(&chars_of(h.id.as_str())),
                level: h.level,
                file: string_of(&chars_of(file)),
            },
        );
        i += 1;
    }
    r
}

/// The left margin of a heading row: ten pixels per level below the top.
pub fn heading_indent(level: u8) -> (r: i32)
    ensures
        r == (level as int - 1) * 10,
{
    (level as i32 - 1) * 10
}

/// What the Navigator asks of the reader.
#[derive(Debug, Clone)]
pub enum SidebarAction {
    /// Open the file at this path.
    OpenFile(String),
    /// Jump to heading `id` of the file at `file`.
    ScrollTo { file: String, id: String },
}

/// What activating a row does.
#[derive(Debug, Clone)]
pub enum Activation {
    /// A folder opens or closes.
    Toggle,
    /// A file row opens (showing its headings) and the file is opened.
    ExpandAndOpen(String),
    /// A heading is jumped to.
    Jump { file: String, id: String },
}

/// The response to activating `node`: a folder toggles, a file opens (and
/// its row expands), a heading is jumped to.
pub fn activation(node: &Node) -> (r: Activation)
    ensures
        match (node@, r) {
            (NodeView::Folder(..), Activation::Toggle) => true,
            (NodeView::File(_, p), Activation::ExpandAndOpen(q)) => q@ == p,
            (NodeView::Heading(_, id, _, f), Activation::Jump { file, id: j }) => file@ == f && j@ == id,
            _ => false,
        },
{
    match node {
        Node::Folder { .. } => Activation::Toggle,
        Node::File { path, .. } => Activation::ExpandAndOpen(string_of(&chars_of(path.as_str()))),
        Node::Heading { file, id, .. } => Activation::Jump {
            file: string_of(&chars_of(file.as_str())),
            id: string_of(&chars_of(id.as_str())),
        },
    }
}

} // verus!
