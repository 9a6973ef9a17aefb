# tangl

A git-backed manager for software product lines. Branches are organised in a tree of
areas, features and products (`_main/_feature/root` is the feature `root` of the area
`main`); products are derived from features by merging feature branches, and the state of
a derivation is stored as metadata in commit messages.

The library in `src/` is verified with Verus:

- `model`: qualified paths and their git branch names, node kinds, the branch tree and its
  walks and drawing;
- `git`: the output handling of the git command line, merge statistics, the conflict
  matrix with its predictions and estimates, merge chain plans and checks, and commit
  metadata framing;
- `spl`: derivation records, their decisions and the inspection of stored records.

`app/` runs git, serializes the records with serde and drives the loops that alternate git
commands with the library's decisions.
