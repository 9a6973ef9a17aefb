//! The git command line as the library sees it: the arguments git is run with, what the
//! output of each command means, and the tree model built from the branch and tag listings.

use crate::git::commit::{Commit, CommitIterator};
use crate::git::conflict::{MergeResult, MergeStatistic};
use crate::git::error::{GitCommandError, GitError, GitWrongNodeTypeError, InvalidPathError};
use crate::model::error::{ModelError, WrongNodeTypeError};
use crate::model::node::{
    inserted, inserted_type, law_insert_keeps_nodes, law_insert_then_lookup, lookup, tree_wf,
    CommitTag, NodeView, PayloadView,
};
use crate::model::node_type::{type_name_spec, ConcreteArea, IsGitObject, NodeType};
use crate::model::path::{git_branch_spec, normalized_segments, QualifiedPath};
use crate::model::tree::{empty_model, NodePath, TreeDataModel};
use crate::text::{
    group_strs_view, owned, remove_char, remove_char_spec, split_spec, split_str, strs_view,
    trim_spec, trim_string,
};
use vstd::prelude::*;
use vstd::utf8::encode_utf8;

verus! {

broadcast use group_strs_view;

/// What a git command gave back: whether it succeeded, and what it wrote to standard output
/// and standard error.
pub struct CommandOutput {
    pub success: bool,
    pub stdout: String,
    pub stderr: String,
}

/// The outcome of a command: its trimmed output when it succeeded, otherwise an error with
/// its trimmed error output.
pub fn output_to_result(output: &CommandOutput) -> (r: Result<String, GitCommandError>)
    ensures
        match r {
            Ok(s) => output.success && s@ == trim_spec(output.stdout@),
            Err(e) => !output.success && e.message_spec() == trim_spec(output.stderr@),
        },
{
    if output.success {
        Ok(trim_string(output.stdout.as_str()))
    } else {
        Err(GitCommandError::new(trim_string(output.stderr.as_str())))
    }
}

/// The outcome of a command as a git error.
fn command_result(output: &CommandOutput) -> (r: Result<String, GitError>)
    ensures
        match r {
            Ok(s) => output.success && s@ == trim_spec(output.stdout@),
            Err(GitError::Git(e)) => !output.success && e.message_spec() == trim_spec(output.stderr@),
            Err(GitError::Io(_)) => false,
        },
{
    match output_to_result(output) {
        Ok(s) => Ok(s),
        Err(e) => Err(GitError::Git(e)),
    }
}

/// Where the repository is: the current directory or a directory given by its path.
#[derive(Clone, Debug)]
pub enum GitPath {
    CurrentDirectory,
    CustomDirectory(String),
}

/// The directory of a repository location, if it names one.
pub open spec fn dir_of(p: GitPath) -> Option<Seq<char>> {
    match p {
        GitPath::CurrentDirectory => None,
        GitPath::CustomDirectory(d) => Some(d@),
    }
}

/// The arguments git is run with for the command `args`: the repository's directories when
/// it is not the current directory, the option for colored output when asked for, then the
/// command.
pub open spec fn cli_arguments(dir: Option<Seq<char>>, colored: bool, args: Seq<Seq<char>>) -> Seq<Seq<char>> {
    let dirs = match dir {
        Some(d) => seq!["--git-dir="@ + d + "/.git"@, "--work-tree="@ + d],
        None => Seq::empty(),
    };
    let color = if colored {
        seq!["-c"@, "color.ui=always"@]
    } else {
        Seq::empty()
    };
    dirs + color + args
}

/// How git is invoked: in which directory, and whether it is asked for colored output.
#[derive(Debug)]
pub struct GitCLI {
    path: GitPath,
    colored: bool,
}

impl View for GitCLI {
    type V = (Option<Seq<char>>, bool);

    closed spec fn view(&self) -> (Option<Seq<char>>, bool) {
        (dir_of(self.path), self.colored)
    }
}

impl GitCLI {
    /// Git in the current directory, without colors.
    pub fn in_current_directory() -> (c: Self)
        ensures
            c@ == (None::<Seq<char>>, false),
    {
        Self::new(GitPath::CurrentDirectory)
    }

    /// Git in the repository at `path`, without colors.
    pub fn in_custom_directory(path: String) -> (c: Self)
        ensures
            c@ == (Some(path@), false),
    {
        Self::new(GitPath::CustomDirectory(path))
    }

    /// Git at `path`, without colors.
    pub fn new(path: GitPath) -> (c: Self)
        ensures
            c@ == (dir_of(path), false),
    {
        Self { path, colored: false }
    }

    /// Asks for colored output or not.
    pub fn colored(&mut self, colored: bool)
        ensures
            final(self)@ == (old(self)@.0, colored),
    {
        self.colored = colored;
    }

    /// The arguments git is run with for the command `args`.
    pub fn arguments(&self, args: &Vec<String>) -> (r: Vec<String>)
        ensures
            strs_view(r@) == cli_arguments(self@.0, self@.1, strs_view(args@)),
    {
        let mut r: Vec<String> = Vec::new();
        match &self.path {
            GitPath::CurrentDirectory => {},
            GitPath::CustomDirectory(path) => {
                let mut git_dir = owned("--git-dir=");
                git_dir.append(path.as_str());
                git_dir.append("/.git");
                r.push(git_dir);
                let mut work_tree = owned("--work-tree=");
                work_tree.append(path.as_str());
                r.push(work_tree);
            },
        }
        if self.colored {
            r.push(owned("-c"));
            r.push(owned("color.ui=always"));
        }
        let ghost front = strs_view(r@);
        let mut i: usize = 0;
        while i < args.len()
            invariant
                i <= args@.len(),
                strs_view(r@) == front + strs_view(args@).take(i as int),
            decreases args@.len() - i,
        {
            r.push(args[i].clone());
            i = i + 1;
            assert(strs_view(r@) =~= front + strs_view(args@).take(i as int));
        }
        assert(strs_view(args@).take(i as int) =~= strs_view(args@));
        assert(front + strs_view(args@) =~= cli_arguments(self@.0, self@.1, strs_view(args@)));
        r
    }
}

/// The name a line of a branch or tag listing stands for: the line without the `*` that
/// marks the current branch, trimmed.
pub open spec fn line_name(line: Seq<char>) -> Seq<char> {
    trim_spec(remove_char_spec(line, '*'))
}

/// The tree `v` with a branch inserted for each named line of `lines`, at the normalized path
/// of its name.
pub open spec fn with_branches(v: NodeView, lines: Seq<Seq<char>>) -> NodeView
    decreases lines.len(),
{
    if lines.len() == 0 {
        v
    } else {
        let prev = with_branches(v, lines.drop_last());
        let name = line_name(lines.last());
        if name.len() == 0 {
            prev
        } else {
            inserted(prev, normalized_segments(name), PayloadView::Branch((Some(name), None)))
        }
    }
}

/// The tree `v` with a tag inserted for each line of `lines` whose name has a segment, at the
/// normalized path of its name.
pub open spec fn with_tags(v: NodeView, lines: Seq<Seq<char>>) -> NodeView
    decreases lines.len(),
{
    if lines.len() == 0 {
        v
    } else {
        let prev = with_tags(v, lines.drop_last());
        let name = line_name(lines.last());
        let path = normalized_segments(name);
        if name.len() == 0 || path.len() == 0 {
            prev
        } else {
            inserted(prev, path, PayloadView::Tag((path.last(), name)))
        }
    }
}

/// The tree model of the listings of `git branch` and `git tag`.
pub open spec fn model_from_listings(branches: Seq<char>, tags: Seq<char>) -> NodeView {
    with_tags(with_branches(empty_model(), split_spec(branches, seq!['\n'])), split_spec(tags, seq!['\n']))
}

/// Adding tags keeps every node of the tree.
proof fn lemma_tags_keep_nodes(v: NodeView, lines: Seq<Seq<char>>, q: Seq<Seq<char>>)
    requires
        lookup(v, q) is Some,
    ensures
        lookup(with_tags(v, lines), q) is Some,
    decreases lines.len(),
{
    if lines.len() > 0 {
        lemma_tags_keep_nodes(v, lines.drop_last(), q);
        let prev = with_tags(v, lines.drop_last());
        let name = line_name(lines.last());
        let path = normalized_segments(name);
        if !(name.len() == 0 || path.len() == 0) {
            law_insert_keeps_nodes(prev, path, PayloadView::Tag((path.last(), name)), q);
        }
    }
}

/// The branch of line `k` leads to a node once the first `n` lines (`n > k`) are inserted.
proof fn lemma_branch_stays(v: NodeView, lines: Seq<Seq<char>>, k: int, n: int)
    requires
        0 <= k < n <= lines.len(),
        line_name(lines[k]).len() > 0,
        normalized_segments(line_name(lines[k])).len() > 0,
    ensures
        lookup(with_branches(v, lines.take(n)), normalized_segments(line_name(lines[k]))) is Some,
    decreases n,
{
    let t = lines.take(n);
    assert(t.drop_last() =~= lines.take(n - 1));
    assert(t.last() == lines[n - 1]);
    let q = normalized_segments(line_name(lines[k]));
    let prev = with_branches(v, lines.take(n - 1));
    let name = line_name(lines[n - 1]);
    if n - 1 == k {
        law_insert_then_lookup(prev, q, PayloadView::Branch((Some(name), None)));
    } else {
        lemma_branch_stays(v, lines, k, n - 1);
        if name.len() > 0 {
            law_insert_keeps_nodes(prev, normalized_segments(name), PayloadView::Branch((Some(name), None)), q);
        }
    }
}

/// Every branch that the listing of `git branch` names is in the model built from the
/// listings: its normalized path leads to a node.
pub proof fn law_listed_branches_are_in_the_model(branches: Seq<char>, tags: Seq<char>, k: int)
    requires
        0 <= k < split_spec(branches, seq!['\n']).len(),
        line_name(split_spec(branches, seq!['\n'])[k]).len() > 0,
        normalized_segments(line_name(split_spec(branches, seq!['\n'])[k])).len() > 0,
    ensures
        lookup(
            model_from_listings(branches, tags),
            normalized_segments(line_name(split_spec(branches, seq!['\n'])[k])),
        ) is Some,
{
    let lines = split_spec(branches, seq!['\n']);
    lemma_branch_stays(empty_model(), lines, k, lines.len() as int);
    assert(lines.take(lines.len() as int) =~= lines);
    lemma_tags_keep_nodes(
        with_branches(empty_model(), lines),
        split_spec(tags, seq!['\n']),
        normalized_segments(line_name(lines[k])),
    );
}

/// The path of the current branch that `git branch --show-current` printed.
pub open spec fn current_path_spec(stdout: Seq<char>) -> Seq<Seq<char>> {
    normalized_segments(trim_spec(stdout))
}

/// The name of a line of a listing.
fn name_of_line(line: &String) -> (n: String)
    ensures
        n@ == line_name(line@),
{
    let without_mark = remove_char(line.as_str(), '*');
    trim_string(without_mark.as_str())
}

/// The git interface: the tree model of the repository and how git is invoked.
pub struct GitInterface {
    model: TreeDataModel,
    raw_git_interface: GitCLI,
}

impl GitInterface {
    /// The interface to the repository at `path` whose `git branch` listing is `branches` and
    /// whose `git tag` listing is `tags`.
    pub fn new(path: GitPath, branches: &str, tags: &str) -> (g: Self)
        ensures
            g.model_view() == model_from_listings(branches@, tags@),
            tree_wf(g.model_view()),
            g.cli_view() == (dir_of(path), false),
    {
        proof {
            reveal_strlit("\n");
            assert("\n"@ =~= seq!['\n']);
        }
        let mut model = TreeDataModel::new();
        let lines = split_str(branches, "\n");
        let ghost bl = strs_view(lines@);
        let mut i: usize = 0;
        while i < lines.len()
            invariant
                i <= lines@.len(),
                bl == strs_view(lines@),
                model@ == with_branches(empty_model(), bl.take(i as int)),
                tree_wf(model@),
            decreases lines@.len() - i,
        {
            assert(bl.take(i + 1).drop_last() =~= bl.take(i as int));
            assert(bl[i as int] == lines@[i as int]@);
            let name = name_of_line(&lines[i]);
            if !name.as_str().is_empty() {
                let p = QualifiedPath::to_normalized_path(name.as_str());
                model.insert_branch(&p, name);
            }
            i = i + 1;
        }
        assert(bl.take(i as int) =~= bl);
        let tag_lines = split_str(tags, "\n");
        let ghost tl = strs_view(tag_lines@);
        let ghost after_branches = model@;
        let mut j: usize = 0;
        while j < tag_lines.len()
            invariant
                j <= tag_lines@.len(),
                tl == strs_view(tag_lines@),
                model@ == with_tags(after_branches, tl.take(j as int)),
                tree_wf(model@),
            decreases tag_lines@.len() - j,
        {
            assert(tl.take(j + 1).drop_last() =~= tl.take(j as int));
            assert(tl[j as int] == tag_lines@[j as int]@);
            let name = name_of_line(&tag_lines[j]);
            if !name.as_str().is_empty() {
                let p = QualifiedPath::to_normalized_path(name.as_str());
                if p.len() > 0 {
                    let tag = CommitTag::new(name);
                    model.insert_tag(&p, tag);
                }
            }
            j = j + 1;
        }
        assert(tl.take(j as int) =~= tl);
        let raw_git_interface = GitCLI::new(path);
        GitInterface { model, raw_git_interface }
    }

    /// The interface to the repository in the current directory.
    pub fn default(branches: &str, tags: &str) -> (g: Self)
        ensures
            g.model_view() == model_from_listings(branches@, tags@),
            tree_wf(g.model_view()),
            g.cli_view() == (None::<Seq<char>>, false),
    {
        Self::new(GitPath::CurrentDirectory, branches, tags)
    }

    /// The interface to the repository at `path`.
    pub fn in_directory(path: String, branches: &str, tags: &str) -> (g: Self)
        ensures
            g.model_view() == model_from_listings(branches@, tags@),
            tree_wf(g.model_view()),
            g.cli_view() == (Some(path@), false),
    {
        Self::new(GitPath::CustomDirectory(path), branches, tags)
    }

    /// The tree model, as a view.
    pub closed spec fn model_view(&self) -> NodeView {
        self.model@
    }

    /// How git is invoked, as a view.
    pub closed spec fn cli_view(&self) -> (Option<Seq<char>>, bool) {
        self.raw_git_interface@
    }

    /// Asks git for colored output or not.
    pub fn colored_output(&mut self, color: bool)
        ensures
            final(self).cli_view() == (old(self).cli_view().0, color),
            final(self).model_view() == old(self).model_view(),
    {
        self.raw_git_interface.colored(color);
    }

    /// How git is invoked.
    pub fn cli(&self) -> (c: &GitCLI)
        ensures
            c@ == self.cli_view(),
    {
        &self.raw_git_interface
    }

    /// The tree model.
    pub fn get_model(&self) -> (m: &TreeDataModel)
        ensures
            m@ == self.model_view(),
    {
        &self.model
    }

    /// The path typed by `T` if it leads to a node of a kind `T` covers; otherwise the error
    /// that says which of both failed.
    pub fn assert_path<T: IsGitObject>(&self, path: &QualifiedPath) -> (r: Result<NodePath<T>, InvalidPathError>)
        ensures
            match r {
                Ok(p) => lookup(self.model_view(), path@) is Some && T::accepts(
                    lookup(self.model_view(), path@).unwrap().node_type,
                ) && p@ == (path@, lookup(self.model_view(), path@).unwrap().node_type),
                Err(InvalidPathError::PathNotFound(_)) => lookup(self.model_view(), path@) is None,
                Err(InvalidPathError::WrongNodeType(_)) => lookup(self.model_view(), path@) is Some
                    && !T::accepts(lookup(self.model_view(), path@).unwrap().node_type),
                Err(_) => false,
            },
    {
        match self.model.assert_path::<T>(path) {
            Ok(p) => Ok(p),
            Err(ModelError::PathNotFound(e)) => Err(InvalidPathError::PathNotFound(e)),
            Err(ModelError::WrongNodeType(e)) => Err(InvalidPathError::WrongNodeType(e)),
        }
    }

    /// The path of the current branch, from the output of `git branch --show-current`.
    pub fn get_current_qualified_path(&self, output: &CommandOutput) -> (r: Result<QualifiedPath, GitError>)
        ensures
            match r {
                Ok(p) => output.success && p@ == current_path_spec(output.stdout@),
                Err(GitError::Git(e)) => !output.success && e.message_spec() == trim_spec(output.stderr@),
                Err(GitError::Io(_)) => false,
            },
    {
        match command_result(output) {
            Ok(branch) => Ok(QualifiedPath::to_normalized_path(branch.as_str())),
            Err(e) => Err(e),
        }
    }

    /// The current branch typed by `T`, from the output of `git branch --show-current`; the
    /// current branch is in the model. An error says that the command failed or that the
    /// branch is of a kind `T` does not cover.
    pub fn assert_current_node_path<T: IsGitObject>(&self, output: &CommandOutput) -> (r: Result<NodePath<T>, GitWrongNodeTypeError>)
        requires
            output.success ==> lookup(self.model_view(), current_path_spec(output.stdout@)) is Some,
        ensures
            match r {
                Ok(p) => output.success && T::accepts(
                    lookup(self.model_view(), current_path_spec(output.stdout@)).unwrap().node_type,
                ) && p@ == (
                    current_path_spec(output.stdout@),
                    lookup(self.model_view(), current_path_spec(output.stdout@)).unwrap().node_type,
                ),
                Err(GitWrongNodeTypeError::Git(e)) => !output.success && e.message_spec() == trim_spec(
                    output.stderr@,
                ),
                Err(GitWrongNodeTypeError::WrongNodeType(e)) => output.success && !T::accepts(
                    lookup(self.model_view(), current_path_spec(output.stdout@)).unwrap().node_type,
                ) && e.message_spec() == "fatal: current branch is not of type '"@ + T::identifier_spec()
                    + "'"@,
                Err(GitWrongNodeTypeError::Io(_)) => false,
            },
    {
        let current = match self.get_current_qualified_path(output) {
            Ok(p) => p,
            Err(GitError::Git(e)) => {
                return Err(GitWrongNodeTypeError::Git(e));
            },
            Err(GitError::Io(e)) => {
                return Err(GitWrongNodeTypeError::Io(e));
            },
        };
        match self.model.assert_path::<T>(&current) {
            Ok(path) => Ok(path),
            Err(_) => {
                let mut message = owned("fatal: current branch is not of type '");
                message.append(T::identifier().as_str());
                message.append("'");
                Err(GitWrongNodeTypeError::WrongNodeType(WrongNodeTypeError::new(message)))
            },
        }
    }

    /// The area of the current branch, from the output of `git branch --show-current`: the
    /// node named by the first segment of its path, which is an area of the model.
    pub fn get_current_area(&self, output: &CommandOutput) -> (r: Result<NodePath<ConcreteArea>, GitError>)
        requires
            output.success ==> current_path_spec(output.stdout@).len() > 0 && lookup(
                self.model_view(),
                seq![current_path_spec(output.stdout@)[0]],
            ) is Some && lookup(self.model_view(), seq![current_path_spec(output.stdout@)[0]]).unwrap().node_type
                == NodeType::ConcreteArea,
        ensures
            match r {
                Ok(p) => output.success && p@ == (
                    seq![current_path_spec(output.stdout@)[0]],
                    NodeType::ConcreteArea,
                ),
                Err(GitError::Git(e)) => !output.success && e.message_spec() == trim_spec(output.stderr@),
                Err(GitError::Io(_)) => false,
            },
    {
        let current = match self.get_current_qualified_path(output) {
            Ok(p) => p,
            Err(e) => {
                return Err(e);
            },
        };
        let first = current.get(0).unwrap().clone();
        let mut area = QualifiedPath::new();
        area.push(first);
        assert(area@ =~= seq![current_path_spec(output.stdout@)[0]]);
        Ok(self.model.get_node_path::<ConcreteArea>(&area).unwrap())
    }

    /// Puts a branch at `path` into the model, named by the path's git branch name, and gives
    /// back the path typed by `T` when the node there is of a kind `T` covers; otherwise the
    /// error that names both kinds. The branch itself is then created with `git branch`.
    pub fn create_branch<T: IsGitObject>(&mut self, path: &QualifiedPath) -> (r: Result<NodePath<T>, GitWrongNodeTypeError>)
        ensures
            final(self).model_view() == inserted(
                old(self).model_view(),
                path@,
                PayloadView::Branch((Some(git_branch_spec(path@)), None)),
            ),
            final(self).cli_view() == old(self).cli_view(),
            tree_wf(old(self).model_view()) ==> tree_wf(final(self).model_view()),
            match r {
                Ok(p) => T::accepts(
                    inserted_type(old(self).model_view(), path@, PayloadView::Branch((Some(git_branch_spec(path@)), None))),
                ) && p@ == (
                    path@,
                    inserted_type(old(self).model_view(), path@, PayloadView::Branch((Some(git_branch_spec(path@)), None))),
                ),
                Err(GitWrongNodeTypeError::WrongNodeType(e)) => !T::accepts(
                    inserted_type(old(self).model_view(), path@, PayloadView::Branch((Some(git_branch_spec(path@)), None))),
                ) && e.message_spec() == "Expected to create branch of type '"@ + T::identifier_spec()
                    + "', but it would be of type '"@ + type_name_spec(
                    inserted_type(old(self).model_view(), path@, PayloadView::Branch((Some(git_branch_spec(path@)), None))),
                ) + "'"@,
                Err(_) => false,
            },
    {
        let ghost before = self.model@;
        let ghost payload = PayloadView::Branch((Some(git_branch_spec(path@)), None));
        let node_type = self.model.insert_branch(path, path.to_git_branch());
        if !T::is_compatible(&node_type) {
            let mut message = owned("Expected to create branch of type '");
            message.append(T::identifier().as_str());
            message.append("', but it would be of type '");
            message.append(node_type.get_type_name().as_str());
            message.append("'");
            return Err(GitWrongNodeTypeError::WrongNodeType(WrongNodeTypeError::new(message)));
        }
        proof {
            if path@.len() > 0 {
                law_insert_then_lookup(before, path@, payload);
            } else {
                assert(inserted(before, path@, payload) == before);
            }
        }
        Ok(self.model.get_node_path::<T>(path).unwrap())
    }

    /// The statistic of merging `path`, from the output of `git merge`: a success with what
    /// git printed when it succeeded, otherwise a conflict with its error output.
    pub fn merge<T: IsGitObject>(&self, path: &NodePath<T>, output: &CommandOutput) -> (r: (MergeStatistic<T>, String))
        ensures
            output.success ==> r.0@ == (path@, MergeResult::Success) && r.1@ == output.stdout@,
            !output.success ==> r.0@ == (path@, MergeResult::Conflict) && r.1@ == output.stderr@,
    {
        if output.success {
            (MergeStatistic::new(path.clone(), MergeResult::Success), output.stdout.clone())
        } else {
            (MergeStatistic::new(path.clone(), MergeResult::Conflict), output.stderr.clone())
        }
    }

    /// The git name of the tag `tag` below the current branch, from the output of
    /// `git branch --show-current`.
    pub fn create_tag(&self, output: &CommandOutput, tag: &QualifiedPath) -> (r: Result<String, GitError>)
        ensures
            match r {
                Ok(s) => output.success && s@ == git_branch_spec(current_path_spec(output.stdout@) + tag@),
                Err(GitError::Git(e)) => !output.success && e.message_spec() == trim_spec(output.stderr@),
                Err(GitError::Io(_)) => false,
            },
    {
        let current = match self.get_current_qualified_path(output) {
            Ok(p) => p,
            Err(e) => {
                return Err(e);
            },
        };
        let tagged = current.concat(tag);
        Ok(tagged.to_git_branch())
    }

    /// The commit with hash `hash` (at least eight bytes long), from the output of
    /// `git log --format=%B -n 1`: its message is the trimmed output.
    pub fn get_commit_from_hash(&self, hash: String, output: &CommandOutput) -> (r: Result<Commit, GitError>)
        requires
            encode_utf8(hash@).len() >= 8,
        ensures
            match r {
                Ok(c) => output.success && c@ == (hash@, trim_spec(output.stdout@)),
                Err(GitError::Git(e)) => !output.success && e.message_spec() == trim_spec(output.stderr@),
                Err(GitError::Io(_)) => false,
            },
    {
        match command_result(output) {
            Ok(message) => Ok(Commit::new(hash, message)),
            Err(e) => Err(e),
        }
    }

    /// The hashes of a commit history, from the output of `git log --format=%H`: one per line.
    pub fn iter_commit_history(&self, output: &CommandOutput) -> (r: Result<CommitIterator, GitError>)
        ensures
            match r {
                Ok(it) => output.success && it@ == (
                    split_spec(trim_spec(trim_spec(output.stdout@)), seq!['\n']),
                    0nat,
                ),
                Err(GitError::Git(e)) => !output.success && e.message_spec() == trim_spec(output.stderr@),
                Err(GitError::Io(_)) => false,
            },
    {
        proof {
            reveal_strlit("\n");
            assert("\n"@ =~= seq!['\n']);
        }
        match command_result(output) {
            Ok(raw) => {
                let raw_hashes = trim_string(raw.as_str());
                Ok(CommitIterator::new(split_str(raw_hashes.as_str(), "\n")))
            },
            Err(e) => Err(e),
        }
    }

    /// The files a branch manages, from the output of `git ls-tree -r --name-only`: one per line.
    pub fn get_files_managed_by_branch(&self, output: &CommandOutput) -> (r: Result<Vec<String>, GitError>)
        ensures
            match r {
                Ok(v) => output.success && strs_view(v@) == split_spec(trim_spec(output.stdout@), seq!['\n']),
                Err(GitError::Git(e)) => !output.success && e.message_spec() == trim_spec(output.stderr@),
                Err(GitError::Io(_)) => false,
            },
    {
        proof {
            reveal_strlit("\n");
            assert("\n"@ =~= seq!['\n']);
        }
        match command_result(output) {
            Ok(message) => Ok(split_str(message.as_str(), "\n")),
            Err(e) => Err(e),
        }
    }

    /// The files a commit changed, from the output of `git diff-tree --no-commit-id
    /// --name-only -r`: one per line.
    pub fn get_files_changed_by_commit(&self, output: &CommandOutput) -> (r: Result<Vec<String>, GitError>)
        ensures
            match r {
                Ok(v) => output.success && strs_view(v@) == split_spec(trim_spec(output.stdout@), seq!['\n']),
                Err(GitError::Git(e)) => !output.success && e.message_spec() == trim_spec(output.stderr@),
                Err(GitError::Io(_)) => false,
            },
    {
        proof {
            reveal_strlit("\n");
            assert("\n"@ =~= seq!['\n']);
        }
        match command_result(output) {
            Ok(message) => Ok(split_str(message.as_str(), "\n")),
            Err(e) => Err(e),
        }
    }
}

} // verus!
