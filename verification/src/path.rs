//! Path text manipulation for dataset files and the images they name.
//!
//! Paths are plain `/`-separated text here.  A path is absolute when it
//! starts with `/`; a component is a maximal run of non-separator
//! characters, so repeated separators carry no weight.  Callers that deal
//! in real filesystem paths hand these functions canonical path text.

use vstd::prelude::*;

verus! {

/// Whether the path text names an absolute path.
pub open spec fn path_is_absolute(p: Seq<char>) -> bool {
    p.len() > 0 && p[0] == '/'
}

/// `dir` and `name` joined with a single separator; an empty `dir` leaves
/// `name` untouched.
pub open spec fn joined_path(dir: Seq<char>, name: Seq<char>) -> Seq<char> {
    if dir.len() == 0 {
        name
    } else if dir.last() == '/' {
        dir + name
    } else {
        dir + seq!['/'] + name
    }
}

/// An image's `file_name` resolved against the directory of the dataset
/// file that declared it: absolute names stay as they are, relative names
/// are joined onto `dir`.
pub open spec fn resolved_file_name(dir: Seq<char>, name: Seq<char>) -> Seq<char> {
    if path_is_absolute(name) {
        name
    } else {
        joined_path(dir, name)
    }
}

/// The directory part of a path: everything before the last separator.
/// A path without a separator has the empty ("current") directory as its
/// parent, and the root is its own parent.
pub open spec fn parent_dir_spec(p: Seq<char>) -> Seq<char>
    decreases p.len(),
{
    if p.len() == 0 {
        Seq::empty()
    } else if p[p.len() - 1] == '/' {
        if p.len() == 1 {
            seq!['/']
        } else {
            p.subrange(0, p.len() - 1)
        }
    } else {
        parent_dir_spec(p.drop_last())
    }
}

/// Helper for [`path_components`]: the components of `p` when the
/// characters of `cur` have already been read as the start of a component.
pub open spec fn components_rec(p: Seq<char>, cur: Seq<char>) -> Seq<Seq<char>>
    decreases p.len(),
{
    if p.len() == 0 {
        if cur.len() == 0 {
            Seq::empty()
        } else {
            seq![cur]
        }
    } else if p[0] == '/' {
        (if cur.len() == 0 {
            Seq::<Seq<char>>::empty()
        } else {
            seq![cur]
        }) + components_rec(p.drop_first(), Seq::empty())
    } else {
        components_rec(p.drop_first(), cur.push(p[0]))
    }
}

/// The components of a path: its maximal runs of non-separator characters,
/// in order.
pub open spec fn path_components(p: Seq<char>) -> Seq<Seq<char>> {
    components_rec(p, Seq::empty())
}

/// The path text spelling out the given components, separated by `/`.
pub open spec fn joined_components(cs: Seq<Seq<char>>) -> Seq<char>
    decreases cs.len(),
{
    if cs.len() == 0 {
        Seq::empty()
    } else if cs.len() == 1 {
        cs[0]
    } else {
        cs[0] + seq!['/'] + joined_components(cs.drop_first())
    }
}

/// Whether `file` lies in the directory tree rooted at `directory`: both
/// are absolute or both relative, and the directory's components are a
/// prefix of the file's.
pub open spec fn in_directory_tree(file: Seq<char>, directory: Seq<char>) -> bool {
    path_is_absolute(file) == path_is_absolute(directory) && path_components(
        directory,
    ).is_prefix_of(path_components(file))
}

/// Whether the path text starts with the separator.
pub fn is_absolute_path(p: &str) -> (r: bool)
    ensures
        r == path_is_absolute(p@),
{
    let n = p.unicode_len();
    n > 0 && p.get_char(0) == '/'
}

/// Joins `name` onto `dir`, inserting a separator unless one is already
/// there.
pub fn join_path(dir: &str, name: &str) -> (r: String)
    ensures
        r@ == joined_path(dir@, name@),
{
    let n = dir.unicode_len();
    if n == 0 {
        String::from_str(name)
    } else if dir.get_char(n - 1) == '/' {
        String::from_str(dir).concat(name)
    } else {
        proof {
            reveal_strlit("/");
        }
        let mut r = String::from_str(dir);
        r.append("/");
        proof {
            assert(r@ =~= dir@ + seq!['/']);
        }
        r.concat(name)
    }
}

/// Resolves an image's `file_name` against the directory of its source
/// dataset file.
pub fn resolve_file_name(dir: &str, name: &str) -> (r: String)
    ensures
        r@ == resolved_file_name(dir@, name@),
{
    if is_absolute_path(name) {
        String::from_str(name)
    } else {
        join_path(dir, name)
    }
}

/// The directory part of `p`, per [`parent_dir_spec`].
pub fn parent_dir(p: &str) -> (r: String)
    ensures
        r@ == parent_dir_spec(p@),
{
    let n = p.unicode_len();
    let mut k: usize = n;
    proof {
        assert(p@.subrange(0, n as int) =~= p@);
    }
    while k > 0
        invariant
            k <= n,
            n == p@.len(),
            parent_dir_spec(p@.subrange(0, k as int)) == parent_dir_spec(p@),
            forall|j: int| k <= j < n ==> p@[j] != '/',
        decreases k,
    {
        if p.get_char(k - 1) == '/' {
            if k == 1 {
                proof {
                    assert(p@.subrange(0, 1) =~= seq![p@[0]]);
                    reveal_strlit("/");
                    assert("/"@ =~= seq!['/']);
                }
                return String::from_str("/");
            } else {
                let r = p.substring_char(0, k - 1);
                proof {
                    let sub = p@.subrange(0, k as int);
                    assert(sub[k - 1] == '/');
                    assert(sub.subrange(0, k - 1) =~= p@.subrange(0, k - 1));
                }
                return String::from_str(r);
            }
        }
        proof {
            let sub = p@.subrange(0, k as int);
            assert(sub.drop_last() =~= p@.subrange(0, k - 1));
        }
        k = k - 1;
    }
    proof {
        assert(p@.subrange(0, 0) =~= Seq::<char>::empty());
    }
    String::new()
}

/// The components of `p`, per [`path_components`].
pub fn components_of(p: &str) -> (r: Vec<String>)
    ensures
        r.deep_view() == path_components(p@),
{
    let n = p.unicode_len();
    let mut done: Vec<String> = Vec::new();
    let mut start: usize = 0;
    let mut i: usize = 0;
    proof {
        assert(p@.skip(0) =~= p@);
        assert(p@.subrange(0, 0) =~= Seq::<char>::empty());
        assert(done.deep_view() + components_rec(p@, Seq::empty()) =~= path_components(p@));
    }
    while i < n
        invariant
            start <= i <= n,
            n == p@.len(),
            path_components(p@) == done.deep_view() + components_rec(
                p@.skip(i as int),
                p@.subrange(start as int, i as int),
            ),
        decreases n - i,
    {
        let c = p.get_char(i);
        proof {
            let rest = p@.skip(i as int);
            assert(rest[0] == c);
            assert(rest.drop_first() =~= p@.skip(i as int + 1));
        }
        if c == '/' {
            if start < i {
                let piece = p.substring_char(start, i);
                let ghost prev = done.deep_view();
                done.push(String::from_str(piece));
                proof {
                    assert(done.deep_view() =~= prev + seq![piece@]);
                }
            }
            start = i + 1;
            proof {
                assert(p@.subrange(start as int, i as int + 1) =~= Seq::<char>::empty());
            }
        } else {
            proof {
                assert(p@.subrange(start as int, i as int + 1) =~= p@.subrange(
                    start as int,
                    i as int,
                ).push(c));
            }
        }
        proof {
            assert(path_components(p@) =~= done.deep_view() + components_rec(
                p@.skip(i as int + 1),
                p@.subrange(start as int, i as int + 1),
            ));
        }
        i += 1;
    }
    proof {
        assert(p@.skip(n as int) =~= Seq::<char>::empty());
    }
    if start < n {
        let piece = p.substring_char(start, n);
        let ghost prev = done.deep_view();
        done.push(String::from_str(piece));
        proof {
            assert(done.deep_view() =~= prev + seq![piece@]);
        }
    }
    proof {
        assert(done.deep_view() =~= path_components(p@));
    }
    done
}

/// Appending one more component appends a separator and its text.
proof fn lemma_joined_components_push(cs: Seq<Seq<char>>, x: Seq<char>)
    requires
        cs.len() >= 1,
    ensures
        joined_components(cs.push(x)) == joined_components(cs) + seq!['/'] + x,
    decreases cs.len(),
{
    if cs.len() == 1 {
        let both = cs.push(x);
        assert(both.drop_first() =~= seq![x]);
        assert(joined_components(both.drop_first()) == x);
        assert(joined_components(both) == both[0] + seq!['/'] + joined_components(
            both.drop_first(),
        ));
        assert(both[0] == cs[0]);
    } else {
        lemma_joined_components_push(cs.drop_first(), x);
        assert(cs.push(x).drop_first() =~= cs.drop_first().push(x));
        assert(cs.push(x)[0] == cs[0]);
        assert(cs[0] + seq!['/'] + (joined_components(cs.drop_first()) + seq!['/'] + x) =~= (
        cs[0] + seq!['/'] + joined_components(cs.drop_first())) + seq!['/'] + x);
    }
}

/// Spells out the components from index `from` on as path text, per
/// [`joined_components`].
pub fn join_components(cs: &Vec<String>, from: usize) -> (r: String)
    requires
        from <= cs@.len(),
    ensures
        r@ == joined_components(cs.deep_view().skip(from as int)),
{
    let n = cs.len();
    if from == n {
        proof {
            assert(cs.deep_view().skip(n as int) =~= Seq::<Seq<char>>::empty());
        }
        return String::new();
    }
    let mut r = cs[from].clone();
    let mut i: usize = from + 1;
    proof {
        assert(cs.deep_view().subrange(from as int, from as int + 1) =~= seq![
            cs.deep_view()[from as int],
        ]);
    }
    while i < n
        invariant
            from < i <= n,
            n == cs@.len(),
            r@ == joined_components(cs.deep_view().subrange(from as int, i as int)),
        decreases n - i,
    {
        proof {
            reveal_strlit("/");
            assert("/"@ =~= seq!['/']);
        }
        r.append("/");
        r.append(cs[i].as_str());
        proof {
            let before = cs.deep_view().subrange(from as int, i as int);
            lemma_joined_components_push(before, cs.deep_view()[i as int]);
            assert(before.push(cs.deep_view()[i as int]) =~= cs.deep_view().subrange(
                from as int,
                i as int + 1,
            ));
        }
        i += 1;
    }
    proof {
        assert(cs.deep_view().subrange(from as int, n as int) =~= cs.deep_view().skip(
            from as int,
        ));
    }
    r
}

/// Whether `file_path` lies in the directory tree rooted at `directory`.
/// Both arguments are expected in canonical form; the test is purely on
/// the path text.
pub fn is_in_directory_tree(file_path: &str, directory: &str) -> (r: bool)
    ensures
        r == in_directory_tree(file_path@, directory@),
{
    if is_absolute_path(file_path) != is_absolute_path(directory) {
        return false;
    }
    let file_comps = components_of(file_path);
    let dir_comps = components_of(directory);
    if dir_comps.len() > file_comps.len() {
        return false;
    }
    let n = dir_comps.len();
    let mut i: usize = 0;
    while i < n
        invariant
            i <= n,
            n == dir_comps@.len() <= file_comps@.len(),
            dir_comps.deep_view() == path_components(directory@),
            file_comps.deep_view() == path_components(file_path@),
            path_is_absolute(file_path@) == path_is_absolute(directory@),
            forall|j: int| 0 <= j < i ==> dir_comps.deep_view()[j] == file_comps.deep_view()[j],
        decreases n - i,
    {
        if dir_comps[i] != file_comps[i] {
            assert(dir_comps.deep_view()[i as int] != file_comps.deep_view()[i as int]);
            assert(!dir_comps.deep_view().is_prefix_of(file_comps.deep_view()));
            return false;
        }
        i += 1;
    }
    proof {
        assert(dir_comps.deep_view().len() == n);
        assert(dir_comps.deep_view() =~= file_comps.deep_view().subrange(0, n as int));
        assert(dir_comps.deep_view().is_prefix_of(file_comps.deep_view()));
    }
    true
}

/// The path under which a dataset file should record an image.  An image
/// inside the dataset file's own directory tree is recorded relative to
/// that directory; any other image, or every image when `force_absolute`
/// is set, keeps its (canonical) path unchanged.
pub fn create_coco_image_path(
    dataset_file_path: &str,
    image_file_path: &str,
    force_absolute: bool,
) -> (r: String)
    ensures
        r@ == (if force_absolute {
            image_file_path@
        } else {
            let parent = parent_dir_spec(dataset_file_path@);
            if in_directory_tree(image_file_path@, parent) {
                joined_components(
                    path_components(image_file_path@).skip(path_components(parent).len() as int),
                )
            } else {
                image_file_path@
            }
        }),
{
    if force_absolute {
        return String::from_str(image_file_path);
    }
    let parent = parent_dir(dataset_file_path);
    if is_in_directory_tree(image_file_path, parent.as_str()) {
        let image_comps = components_of(image_file_path);
        let parent_comps = components_of(parent.as_str());
        let k = parent_comps.len();
        if k <= image_comps.len() {
            join_components(&image_comps, k)
        } else {
            // unreachable: a prefix is never longer than the whole
            String::from_str(image_file_path)
        }
    } else {
        String::from_str(image_file_path)
    }
}

} // verus!
