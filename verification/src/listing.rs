//! The order in which a folder's entries are listed: folders first, then by
//! the chosen key (name, size, modification time or type), ascending or
//! descending, with ties kept in the order the server sent them.
use vstd::prelude::*;

use crate::api::FileItem;
use crate::text::{
    after_last, after_last_chars, chars_of, eq_chars, lemma_seq_order_range, lemma_seq_order_strict_trans,
    lemma_seq_order_trans, lit, lowercase, order_chars, seq_order, to_lower,
};

verus! {

/// The key that the listing is sorted by (`sort_by` of the folder settings).
#[derive(Clone, Copy, Debug, PartialEq, Eq, Structural)]
pub enum SortField {
    Name,
    Size,
    Time,
    Type,
}

/// `"size"`, `"time"` and `"type"` select those keys; any other text sorts by name.
pub open spec fn spec_sort_field(s: Seq<char>) -> SortField {
    if s == seq!['s', 'i', 'z', 'e'] {
        SortField::Size
    } else if s == seq!['t', 'i', 'm', 'e'] {
        SortField::Time
    } else if s == seq!['t', 'y', 'p', 'e'] {
        SortField::Type
    } else {
        SortField::Name
    }
}

/// Reads the `sort_by` setting.
pub fn sort_field(s: &str) -> (r: SortField)
    ensures
        r == spec_sort_field(s@),
{
    let v = chars_of(s);
    let size = lit("size");
    let time = lit("time");
    let typ = lit("type");
    proof {
        reveal_strlit("size");
        reveal_strlit("time");
        reveal_strlit("type");
        assert(size@ =~= seq!['s', 'i', 'z', 'e']);
        assert(time@ =~= seq!['t', 'i', 'm', 'e']);
        assert(typ@ =~= seq!['t', 'y', 'p', 'e']);
    }
    if eq_chars(&v, &size) {
        SortField::Size
    } else if eq_chars(&v, &time) {
        SortField::Time
    } else if eq_chars(&v, &typ) {
        SortField::Type
    } else {
        SortField::Name
    }
}

/// What an entry is compared by: folders before files, then a number, then
/// two texts.
pub struct KeyView {
    pub dir: bool,
    pub num: nat,
    pub primary: Seq<char>,
    pub secondary: Seq<char>,
}

/// The key of an entry for a sort field. Names and extensions are compared
/// lower-cased; the extension is what follows the last `.` of the name (the
/// whole name when it has none).
pub open spec fn file_key(f: FileItem, field: SortField) -> KeyView {
    match field {
        SortField::Size => KeyView {
            dir: f.is_dir,
            num: f.size as nat,
            primary: Seq::empty(),
            secondary: Seq::empty(),
        },
        SortField::Time => KeyView {
            dir: f.is_dir,
            num: f.modified_at as nat,
            primary: Seq::empty(),
            secondary: Seq::empty(),
        },
        SortField::Type => KeyView {
            dir: f.is_dir,
            num: 0,
            primary: lowercase(after_last(f.name@, '.')),
            secondary: lowercase(f.name@),
        },
        SortField::Name => KeyView {
            dir: f.is_dir,
            num: 0,
            primary: lowercase(f.name@),
            secondary: Seq::empty(),
        },
    }
}

/// Comparison of the number and the two texts, in that order.
pub open spec fn lex_order(x: KeyView, y: KeyView) -> int {
    if x.num < y.num {
        -1
    } else if x.num > y.num {
        1
    } else {
        let c = seq_order(x.primary, y.primary);
        if c != 0 {
            c
        } else {
            seq_order(x.secondary, y.secondary)
        }
    }
}

/// Folders come first whatever the direction; `desc` reverses the rest.
pub open spec fn key_order(x: KeyView, y: KeyView, desc: bool) -> int {
    if x.dir != y.dir {
        if x.dir {
            -1
        } else {
            1
        }
    } else if desc {
        -lex_order(x, y)
    } else {
        lex_order(x, y)
    }
}

/// The listing order of two entries: negative when `a` comes first, zero
/// when they tie.
pub open spec fn file_order(a: FileItem, b: FileItem, field: SortField, desc: bool) -> int {
    key_order(file_key(a, field), file_key(b, field), desc)
}

pub open spec fn is_perm(p: Seq<int>, n: nat) -> bool {
    &&& p.len() == n
    &&& forall|i: int| 0 <= i < n ==> 0 <= #[trigger] p[i] < n
    &&& forall|i: int, j: int| 0 <= i < j < n ==> p[i] != p[j]
}

/// `out` lists `input` in listing order, and entries that tie keep their
/// relative order from `input` (a stable sort; its result is unique).
pub open spec fn is_listing_of(
    out: Seq<FileItem>,
    input: Seq<FileItem>,
    field: SortField,
    desc: bool,
) -> bool {
    exists|p: Seq<int>|
        {
            &&& is_perm(p, input.len())
            &&& out.len() == input.len()
            &&& forall|i: int| 0 <= i < out.len() ==> #[trigger] out[i] == input[p[i]]
            &&& forall|i: int, j: int|
                0 <= i < j < out.len() ==> file_order(out[i], out[j], field, desc) <= 0
            &&& forall|i: int, j: int|
                0 <= i < j < out.len() && file_order(out[i], out[j], field, desc) == 0 ==> p[i]
                    < p[j]
        }
}

/// Folders are listed before files, whatever the key and the direction.
pub proof fn lemma_folders_first(
    out: Seq<FileItem>,
    input: Seq<FileItem>,
    field: SortField,
    desc: bool,
    i: int,
    j: int,
)
    requires
        is_listing_of(out, input, field, desc),
        0 <= i < j < out.len(),
        out[j].is_dir,
    ensures
        out[i].is_dir,
{
    let p = choose|p: Seq<int>|
        {
            &&& is_perm(p, input.len())
            &&& out.len() == input.len()
            &&& forall|i: int| 0 <= i < out.len() ==> #[trigger] out[i] == input[p[i]]
            &&& forall|i: int, j: int|
                0 <= i < j < out.len() ==> file_order(out[i], out[j], field, desc) <= 0
            &&& forall|i: int, j: int|
                0 <= i < j < out.len() && file_order(out[i], out[j], field, desc) == 0 ==> p[i]
                    < p[j]
        };
    assert(file_order(out[i], out[j], field, desc) <= 0);
}

proof fn lemma_lex_props(x: KeyView, y: KeyView)
    ensures
        -1 <= lex_order(x, y) <= 1,
        lex_order(x, y) == -lex_order(y, x),
{
    lemma_seq_order_range(x.primary, y.primary);
    lemma_seq_order_range(x.secondary, y.secondary);
}

proof fn lemma_lex_trans(x: KeyView, y: KeyView, z: KeyView)
    requires
        lex_order(x, y) <= 0,
        lex_order(y, z) <= 0,
    ensures
        lex_order(x, z) <= 0,
{
    lemma_seq_order_range(x.primary, y.primary);
    lemma_seq_order_range(y.primary, z.primary);
    lemma_seq_order_range(x.primary, z.primary);
    if x.num == y.num && y.num == z.num {
        let a = seq_order(x.primary, y.primary);
        let b = seq_order(y.primary, z.primary);
        if a == 0 && b == 0 {
            lemma_seq_order_trans(x.secondary, y.secondary, z.secondary);
        } else if a == 0 {
            assert(x.primary == y.primary);
        } else if b == 0 {
            assert(y.primary == z.primary);
        } else {
            lemma_seq_order_strict_trans(x.primary, y.primary, z.primary);
        }
    }
}

/// `key_order` is a total preorder: three-valued, antisymmetric and transitive.
pub proof fn lemma_key_order_props(x: KeyView, y: KeyView, desc: bool)
    ensures
        -1 <= key_order(x, y, desc) <= 1,
        key_order(x, y, desc) == -key_order(y, x, desc),
{
    lemma_lex_props(x, y);
}

pub proof fn lemma_key_order_trans(x: KeyView, y: KeyView, z: KeyView, desc: bool)
    requires
        key_order(x, y, desc) <= 0,
        key_order(y, z, desc) <= 0,
    ensures
        key_order(x, z, desc) <= 0,
{
    lemma_lex_props(x, y);
    lemma_lex_props(y, z);
    lemma_lex_props(x, z);
    if x.dir == y.dir && y.dir == z.dir {
        if desc {
            lemma_lex_trans(z, y, x);
        } else {
            lemma_lex_trans(x, y, z);
        }
    }
}

/// The executable form of a [`KeyView`].
pub(crate) struct SortKey {
    pub(crate) dir: bool,
    pub(crate) num: u64,
    pub(crate) primary: Vec<char>,
    pub(crate) secondary: Vec<char>,
}

pub(crate) open spec fn key_view(k: SortKey) -> KeyView {
    KeyView { dir: k.dir, num: k.num as nat, primary: k.primary@, secondary: k.secondary@ }
}

fn make_key(f: &FileItem, field: SortField) -> (k: SortKey)
    ensures
        key_view(k) == file_key(*f, field),
{
    let name = chars_of(f.name.as_str());
    match field {
        SortField::Size => SortKey {
            dir: f.is_dir,
            num: f.size,
            primary: Vec::new(),
            secondary: Vec::new(),
        },
        SortField::Time => SortKey {
            dir: f.is_dir,
            num: f.modified_at,
            primary: Vec::new(),
            secondary: Vec::new(),
        },
        SortField::Type => {
            let ext = after_last_chars(&name, '.');
            SortKey { dir: f.is_dir, num: 0, primary: to_lower(&ext), secondary: to_lower(&name) }
        },
        SortField::Name => SortKey {
            dir: f.is_dir,
            num: 0,
            primary: to_lower(&name),
            secondary: Vec::new(),
        },
    }
}

fn order_keys(x: &SortKey, y: &SortKey, desc: bool) -> (r: i8)
    ensures
        r as int == key_order(key_view(*x), key_view(*y), desc),
{
    if x.dir != y.dir {
        if x.dir {
            -1
        } else {
            1
        }
    } else {
        let c: i8 = if x.num < y.num {
            -1
        } else if x.num > y.num {
            1
        } else {
            let p = order_chars(&x.primary, &y.primary);
            if p != 0 {
                p
            } else {
                order_chars(&x.secondary, &y.secondary)
            }
        };
        proof {
            lemma_lex_props(key_view(*x), key_view(*y));
        }
        if desc {
            -c
        } else {
            c
        }
    }
}

/// Moving the element at `i` to position `j <= i`.
spec fn moved<A>(s: Seq<A>, i: int, j: int) -> Seq<A> {
    s.remove(i).insert(j, s[i])
}

proof fn lemma_moved<A>(s: Seq<A>, i: int, j: int)
    requires
        0 <= j <= i < s.len(),
    ensures
        moved(s, i, j).len() == s.len(),
        forall|k: int| 0 <= k < j ==> #[trigger] moved(s, i, j)[k] == s[k],
        moved(s, i, j)[j] == s[i],
        forall|k: int| j < k <= i ==> #[trigger] moved(s, i, j)[k] == s[k - 1],
        forall|k: int| i < k < s.len() ==> #[trigger] moved(s, i, j)[k] == s[k],
{
    s.remove_ensures(i);
    s.remove(i).insert_ensures(j, s[i]);
}

/// Stable insertion sort of `items` by `keys` (moved together).
#[verifier::spinoff_prover]
#[verifier::rlimit(40)]
pub(crate) fn sort_by_keys<T>(items: &mut Vec<T>, keys: &mut Vec<SortKey>, desc: bool) -> (perm: Ghost<
    Seq<int>,
>)
    requires
        old(items).len() == old(keys).len(),
    ensures
        final(items).len() == old(items).len(),
        final(keys).len() == old(keys).len(),
        is_perm(perm@, old(items).len() as nat),
        forall|k: int|
            0 <= k < final(items).len() ==> #[trigger] final(items)@[k] == old(items)@[perm@[k]]
                && final(keys)@[k] == old(keys)@[perm@[k]],
        forall|a: int, b: int|
            0 <= a < b < final(keys).len() ==> key_order(
                key_view(final(keys)@[a]),
                key_view(final(keys)@[b]),
                desc,
            ) <= 0,
        forall|a: int, b: int|
            0 <= a < b < final(keys).len() && key_order(
                key_view(final(keys)@[a]),
                key_view(final(keys)@[b]),
                desc,
            ) == 0 ==> perm@[a] < perm@[b],
{
    let n = items.len();
    let ghost items0 = items@;
    let ghost keys0 = keys@;
    let ghost mut perm: Seq<int> = Seq::new(n as nat, |k: int| k);
    if n == 0 {
        return Ghost(perm);
    }
    let mut i: usize = 1;
    while i < n
        invariant
            1 <= i <= n,
            n == items.len(),
            n == keys.len(),
            n == items0.len(),
            n == keys0.len(),
            perm.len() == n,
            forall|k: int| 0 <= k < n ==> 0 <= #[trigger] perm[k] < n,
            forall|a: int, b: int| 0 <= a < b < n ==> perm[a] != perm[b],
            forall|k: int|
                0 <= k < n ==> #[trigger] items@[k] == items0[perm[k]] && keys@[k]
                    == keys0[perm[k]],
            forall|k: int| i <= k < n ==> #[trigger] perm[k] == k,
            forall|k: int| 0 <= k < i ==> #[trigger] perm[k] < i,
            forall|a: int, b: int|
                0 <= a < b < i ==> key_order(key_view(keys@[a]), key_view(keys@[b]), desc) <= 0,
            forall|a: int, b: int|
                0 <= a < b < i && key_order(key_view(keys@[a]), key_view(keys@[b]), desc) == 0
                    ==> perm[a] < perm[b],
        decreases n - i,
    {
        let ghost s_items = items@;
        let ghost s_keys = keys@;
        let ghost s_perm = perm;
        let x = items.remove(i);
        let kx = keys.remove(i);
        let mut j: usize = i;
        while j > 0 && order_keys(&keys[j - 1], &kx, desc) > 0
            invariant
                0 <= j <= i,
                i < n,
                s_keys.len() == n,
                keys.len() == n - 1,
                keys@ == s_keys.remove(i as int),
                kx == s_keys[i as int],
                forall|m: int|
                    j <= m < i ==> key_order(key_view(s_keys[m]), key_view(kx), desc) > 0,
            decreases j,
        {
            proof {
                s_keys.remove_ensures(i as int);
            }
            j = j - 1;
        }
        proof {
            s_keys.remove_ensures(i as int);
        }
        let ghost stop = j;
        items.insert(j, x);
        keys.insert(j, kx);
        proof {
            lemma_moved(s_items, i as int, j as int);
            lemma_moved(s_keys, i as int, j as int);
            lemma_moved(s_perm, i as int, j as int);
            assert(items@ =~= moved(s_items, i as int, j as int));
            assert(keys@ =~= moved(s_keys, i as int, j as int));
            perm = moved(s_perm, i as int, j as int);
            let kv = key_view(kx);
            if j > 0 {
                assert(key_order(key_view(s_keys[j - 1]), kv, desc) <= 0);
            }
            assert forall|a: int, b: int| 0 <= a < b < i + 1 implies key_order(
                key_view(keys@[a]),
                key_view(keys@[b]),
                desc,
            ) <= 0 && (key_order(key_view(keys@[a]), key_view(keys@[b]), desc) == 0 ==> perm[a]
                < perm[b]) by {
                let ka = key_view(keys@[a]);
                let kb = key_view(keys@[b]);
                if b < j {
                } else if b == j {
                    assert(keys@[b] == kx);
                    assert(a <= j - 1);
                    if a < j - 1 {
                        lemma_key_order_trans(
                            key_view(s_keys[a]),
                            key_view(s_keys[j - 1]),
                            kv,
                            desc,
                        );
                    }
                    assert(perm[a] == s_perm[a]);
                    assert(perm[b] == i);
                } else if a == j {
                    assert(keys@[a] == kx);
                    assert(keys@[b] == s_keys[b - 1]);
                    lemma_key_order_props(key_view(s_keys[b - 1]), kv, desc);
                } else if a < j {
                    assert(keys@[b] == s_keys[b - 1]);
                    assert(perm[b] == s_perm[b - 1]);
                } else {
                    assert(keys@[a] == s_keys[a - 1]);
                    assert(keys@[b] == s_keys[b - 1]);
                    assert(perm[a] == s_perm[a - 1]);
                    assert(perm[b] == s_perm[b - 1]);
                }
            }
            assert forall|a: int, b: int| 0 <= a < b < n implies perm[a] != perm[b] by {
                let oa = if a < j {
                    a
                } else if a == j {
                    i as int
                } else if a <= i {
                    a - 1
                } else {
                    a
                };
                let ob = if b < j {
                    b
                } else if b == j {
                    i as int
                } else if b <= i {
                    b - 1
                } else {
                    b
                };
                assert(perm[a] == s_perm[oa]);
                assert(perm[b] == s_perm[ob]);
                assert(oa != ob);
            }
            assert forall|k: int| 0 <= k < n implies #[trigger] items@[k] == items0[perm[k]]
                && keys@[k] == keys0[perm[k]] && 0 <= perm[k] < n by {
                let ok = if k < j {
                    k
                } else if k == j {
                    i as int
                } else if k <= i {
                    k - 1
                } else {
                    k
                };
                assert(perm[k] == s_perm[ok]);
                assert(items@[k] == s_items[ok]);
                assert(keys@[k] == s_keys[ok]);
            }
            assert forall|k: int| 0 <= k < i + 1 implies #[trigger] perm[k] < i + 1 by {
                if k < j {
                } else if k == j {
                } else {
                    assert(perm[k] == s_perm[k - 1]);
                }
            }
        }
        i = i + 1;
    }
    Ghost(perm)
}

/// The folder's entries in listing order (`sort_by` and `sort_desc` of the
/// folder settings).
pub fn sort_files(files: Vec<FileItem>, sort_by: &str, desc: bool) -> (r: Vec<FileItem>)
    ensures
        is_listing_of(r@, files@, spec_sort_field(sort_by@), desc),
{
    let field = sort_field(sort_by);
    let mut keys: Vec<SortKey> = Vec::new();
    let mut k: usize = 0;
    while k < files.len()
        invariant
            0 <= k <= files.len(),
            keys.len() == k,
            forall|m: int| 0 <= m < k ==> key_view(#[trigger] keys@[m]) == file_key(files@[m], field),
        decreases files.len() - k,
    {
        let key = make_key(&files[k], field);
        keys.push(key);
        k = k + 1;
    }
    let ghost input = files@;
    let ghost keys0 = keys@;
    let mut items = files;
    let perm = sort_by_keys(&mut items, &mut keys, desc);
    proof {
        assert forall|m: int| 0 <= m < items.len() implies key_view(#[trigger] keys@[m]) == file_key(
            items@[m],
            field,
        ) by {
            assert(items@[m] == input[perm@[m]]);
            assert(keys@[m] == keys0[perm@[m]]);
        }
        assert forall|a: int, b: int| 0 <= a < b < items.len() implies file_order(
            items@[a],
            items@[b],
            field,
            desc,
        ) <= 0 by {
            assert(key_view(keys@[a]) == file_key(items@[a], field));
            assert(key_view(keys@[b]) == file_key(items@[b], field));
        }
        assert forall|a: int, b: int|
            0 <= a < b < items.len() && file_order(items@[a], items@[b], field, desc)
                == 0 implies perm@[a] < perm@[b] by {
            assert(key_view(keys@[a]) == file_key(items@[a], field));
            assert(key_view(keys@[b]) == file_key(items@[b], field));
        }
        assert(is_perm(perm@, input.len()));
    }
    items
}

/// `out` holds the names of `input` in ascending order (std `sort` on strings).
pub open spec fn is_sorted_names(out: Seq<String>, input: Seq<String>) -> bool {
    exists|p: Seq<int>|
        {
            &&& is_perm(p, input.len())
            &&& out.len() == input.len()
            &&& forall|i: int| 0 <= i < out.len() ==> #[trigger] out[i] == input[p[i]]
            &&& forall|i: int, j: int|
                0 <= i < j < out.len() ==> seq_order(out[i]@, out[j]@) <= 0
        }
}

/// Sorts names in ascending order, as the bulk rename numbers them.
pub fn sort_names(names: Vec<String>) -> (r: Vec<String>)
    ensures
        is_sorted_names(r@, names@),
{
    let mut keys: Vec<SortKey> = Vec::new();
    let mut k: usize = 0;
    while k < names.len()
        invariant
            0 <= k <= names.len(),
            keys.len() == k,
            forall|m: int|
                0 <= m < k ==> key_view(#[trigger] keys@[m]) == (KeyView {
                    dir: false,
                    num: 0,
                    primary: names@[m]@,
                    secondary: Seq::empty(),
                }),
        decreases names.len() - k,
    {
        keys.push(
            SortKey {
                dir: false,
                num: 0,
                primary: chars_of(names[k].as_str()),
                secondary: Vec::new(),
            },
        );
        k = k + 1;
    }
    let ghost input = names@;
    let ghost keys0 = keys@;
    let mut items = names;
    let perm = sort_by_keys(&mut items, &mut keys, false);
    proof {
        assert forall|a: int, b: int| 0 <= a < b < items.len() implies seq_order(
            items@[a]@,
            items@[b]@,
        ) <= 0 by {
            assert(items@[a] == input[perm@[a]]);
            assert(items@[b] == input[perm@[b]]);
            assert(keys@[a] == keys0[perm@[a]]);
            assert(keys@[b] == keys0[perm@[b]]);
            let pa = perm@[a];
            let pb = perm@[b];
            assert(key_view(keys0[pa]).primary == input[pa]@);
            assert(key_view(keys0[pb]).primary == input[pb]@);
            assert(key_view(keys0[pa]).secondary == Seq::<char>::empty());
            assert(key_view(keys0[pb]).secondary == Seq::<char>::empty());
            assert(key_order(key_view(keys@[a]), key_view(keys@[b]), false) <= 0);
            lemma_seq_order_range(items@[a]@, items@[b]@);
            lemma_seq_order_range(Seq::<char>::empty(), Seq::<char>::empty());
        }
    }
    items
}

} // verus!
