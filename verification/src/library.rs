//! The sound-font library: folders that hold a `config.ini`, their sizes in
//! human-readable form, and the plan of a numbered export.
use vstd::prelude::*;

use vstd::arithmetic::power2::{
    lemma2_to64, lemma2_to64_rest, lemma_pow2_strictly_increases, lemma_pow2_unfold, pow2,
};

use std::path::PathBuf;

use crate::sorting::{is_stable_order, stable_order};
use crate::text::{chars_of, decimal, digit, lowercase, push_char, push_decimal, to_lowercase, views};

verus! {

/// A single sound-font folder discovered in the library.
#[derive(Debug, Clone)]
pub struct SoundFont {
    pub name: String,
    pub path: PathBuf,
    pub size_bytes: u64,
    pub file_count: u64,
}

impl SoundFont {
    /// A field-by-field copy.
    pub fn duplicate(&self) -> (r: SoundFont)
        ensures
            r == *self,
    {
        SoundFont {
            name: self.name.clone(),
            path: self.path.clone(),
            size_bytes: self.size_bytes,
            file_count: self.file_count,
        }
    }

    /// The folder's size in human-readable form.
    pub fn size_human(&self) -> (r: String)
        ensures
            r@ == human_bytes_text(self.size_bytes as nat),
    {
        human_bytes(self.size_bytes)
    }
}

// ─── Human-readable sizes ───────────────────────────────────────────────────

/// Bytes in a kibibyte, mebibyte and gibibyte.
pub const KB: u64 = 1024;
pub const MB: u64 = 1048576;
pub const GB: u64 = 1073741824;

/// `n / d` rounded to the nearest integer, ties to the even one.
pub open spec fn round_half_even(n: nat, d: nat) -> nat
    recommends
        d > 0,
{
    let q = n / d;
    let r = n % d;
    if 2 * r > d || (2 * r == d && q % 2 == 1) {
        q + 1
    } else {
        q
    }
}

/// The smallest `e >= s` with `b < 2^(53 + e)`, up to 64.
pub open spec fn f64_exponent(b: nat, s: nat) -> nat
    decreases 64 - s,
{
    if s >= 64 || b / pow2(s) < pow2(53) {
        s
    } else {
        f64_exponent(b, s + 1)
    }
}

/// The value of `b as f64`: `b` rounded to 53 significant bits, ties to even.
pub open spec fn as_f64(b: nat) -> nat {
    let u = pow2(f64_exponent(b, 0));
    round_half_even(b, u) * u
}

/// `q / 100` with two decimals: the integer part, a point, two digits.
pub open spec fn two_places(q: nat) -> Seq<char> {
    decimal(q / 100).push('.').push(crate::text::digit_char((q % 100) / 10)).push(
        crate::text::digit_char(q % 10),
    )
}

/// `q / 10` with one decimal.
pub open spec fn one_place(q: nat) -> Seq<char> {
    decimal(q / 10).push('.').push(crate::text::digit_char(q % 10))
}

/// The text of `human_bytes(b)`: gibibytes and mebibytes with two decimals,
/// kibibytes with one, smaller sizes in whole bytes. The decimals are those
/// of `{:.2}`/`{:.1}` applied to the quotient of the two `f64` values:
/// exact rounding of the binary value, ties to even.
pub open spec fn human_bytes_text(b: nat) -> Seq<char> {
    if b >= GB {
        two_places(round_half_even(as_f64(b) * 100, GB as nat)) + seq![' ', 'G', 'B']
    } else if b >= MB {
        two_places(round_half_even(b * 100, MB as nat)) + seq![' ', 'M', 'B']
    } else if b >= KB {
        one_place(round_half_even(b * 10, KB as nat)) + seq![' ', 'K', 'B']
    } else {
        decimal(b) + seq![' ', 'B']
    }
}

fn round_half_even_u128(n: u128, d: u128) -> (r: u128)
    requires
        d > 0,
        n / d < u128::MAX,
    ensures
        r == round_half_even(n as nat, d as nat),
{
    let q = n / d;
    let rem = n % d;
    if rem > d - rem || (rem == d - rem && q % 2 == 1) {
        q + 1
    } else {
        q
    }
}

/// The value that `b as f64` holds, as an integer.
fn f64_value(b: u64) -> (r: u128)
    ensures
        r == as_f64(b as nat),
        r <= 0x1_0000_0000_0000_0000,
{
    let limit: u128 = 0x20_0000_0000_0000;
    let mut s: u64 = 0;
    let mut u: u128 = 1;
    proof {
        lemma2_to64();
        lemma2_to64_rest();
    }
    while (b as u128) / u >= limit
        invariant
            s <= 11,
            u == pow2(s as nat),
            1 <= u <= 2048,
            limit == pow2(53),
            limit == 0x20_0000_0000_0000,
            f64_exponent(b as nat, 0) == f64_exponent(b as nat, s as nat),
        decreases 11 - s,
    {
        proof {
            let bb = b as nat;
            assert(bb < 0x1_0000_0000_0000_0000);
            assert(bb / (u as nat) >= 0x20_0000_0000_0000);
            assert(u < 2048) by (nonlinear_arith)
                requires
                    bb / (u as nat) >= 0x20_0000_0000_0000,
                    bb < 0x1_0000_0000_0000_0000,
                    u >= 1,
            {
                assert((u as nat) * (bb / (u as nat)) <= bb);
            }
            lemma2_to64();
            assert(s <= 10);
            assert(u <= 1024) by {
                if s < 10 {
                    lemma_pow2_strictly_increases(s as nat, 10);
                }
            }
        }
        s = s + 1;
        u = u * 2;
        proof {
            lemma_pow2_unfold(s as nat);
        }
    }
    let q = round_half_even_u128(b as u128, u);
    proof {
        assert(q * u <= 0x1_0000_0000_0000_0000) by (nonlinear_arith)
            requires
                q == round_half_even(b as nat, u as nat),
                u >= 1,
                u <= 2048,
                b < 0x1_0000_0000_0000_0000,
                (b as nat) / (u as nat) < 0x20_0000_0000_0000,
        {
            let qq = (b as nat) / (u as nat);
            assert((u as nat) * qq <= b as nat);
            assert(q <= qq + 1);
        }
    }
    q * u
}

fn push_two_places(s: &mut String, q: u64)
    ensures
        final(s)@ == old(s)@ + two_places(q as nat),
{
    push_decimal(s, q / 100);
    push_char(s, '.');
    push_char(s, digit((q % 100) / 10));
    push_char(s, digit(q % 10));
    assert(final(s)@ =~= old(s)@ + two_places(q as nat));
}

fn push_one_place(s: &mut String, q: u64)
    ensures
        final(s)@ == old(s)@ + one_place(q as nat),
{
    push_decimal(s, q / 10);
    push_char(s, '.');
    push_char(s, digit(q % 10));
    assert(final(s)@ =~= old(s)@ + one_place(q as nat));
}

/// Convert bytes to a human-readable string.
pub fn human_bytes(bytes: u64) -> (r: String)
    ensures
        r@ == human_bytes_text(bytes as nat),
{
    let mut s = String::new();
    if bytes >= GB {
        let v = f64_value(bytes);
        let q = round_half_even_u128(v * 100, GB as u128);
        proof {
            assert(q <= 0x1_0000_0000_0000_0000u128 * 100 / 1073741824 + 1) by (nonlinear_arith)
                requires
                    q == round_half_even((v * 100) as nat, 1073741824),
                    v <= 0x1_0000_0000_0000_0000,
            ;
        }
        push_two_places(&mut s, q as u64);
        push_char(&mut s, ' ');
        push_char(&mut s, 'G');
        push_char(&mut s, 'B');
    } else if bytes >= MB {
        let q = round_half_even_u128(bytes as u128 * 100, MB as u128);
        proof {
            assert(q <= 0x1_0000_0000_0000_0000u128 * 100) by (nonlinear_arith)
                requires
                    q == round_half_even((bytes * 100) as nat, 1048576),
                    bytes < 0x1_0000_0000_0000_0000,
            ;
        }
        push_two_places(&mut s, q as u64);
        push_char(&mut s, ' ');
        push_char(&mut s, 'M');
        push_char(&mut s, 'B');
    } else if bytes >= KB {
        let q = round_half_even_u128(bytes as u128 * 10, KB as u128);
        proof {
            assert(q <= 0x1_0000_0000_0000_0000u128 * 10) by (nonlinear_arith)
                requires
                    q == round_half_even((bytes * 10) as nat, 1024),
                    bytes < 1048576,
            ;
        }
        push_one_place(&mut s, q as u64);
        push_char(&mut s, ' ');
        push_char(&mut s, 'K');
        push_char(&mut s, 'B');
    } else {
        push_decimal(&mut s, bytes);
        push_char(&mut s, ' ');
        push_char(&mut s, 'B');
    }
    assert(s@ =~= human_bytes_text(bytes as nat));
    s
}

// ─── Scanning ───────────────────────────────────────────────────────────────

/// A folder found below the library root that holds a `config.ini` file
/// directly: its path components relative to the root, its path, and the
/// totals of the files below it.
pub struct FontFolder {
    pub components: Vec<String>,
    pub path: PathBuf,
    pub size_bytes: u64,
    pub file_count: u64,
}

/// The parts joined with `_` between them.
pub open spec fn join_underscore(parts: Seq<Seq<char>>) -> Seq<char>
    decreases parts.len(),
{
    if parts.len() == 0 {
        Seq::empty()
    } else if parts.len() == 1 {
        parts[0]
    } else {
        join_underscore(parts.drop_last()) + seq!['_'] + parts.last()
    }
}

/// The label of a folder: its relative path with separators replaced by `_`.
pub open spec fn folder_label(f: FontFolder) -> Seq<char> {
    join_underscore(views(f.components@))
}

/// The folders with a non-empty label, in their order (a `config.ini` in the
/// library root itself has an empty label).
pub open spec fn labelled_folders(fs: Seq<FontFolder>) -> Seq<FontFolder>
    decreases fs.len(),
{
    if fs.len() == 0 {
        Seq::empty()
    } else {
        let r = labelled_folders(fs.drop_last());
        if folder_label(fs.last()).len() > 0 {
            r.push(fs.last())
        } else {
            r
        }
    }
}

/// The sort keys of the labelled folders: their labels in lower case.
pub open spec fn label_keys(fs: Seq<FontFolder>) -> Seq<Seq<char>> {
    labelled_folders(fs).map_values(|f: FontFolder| lowercase(folder_label(f)))
}

/// `font` describes folder `f`.
pub open spec fn font_of_folder(font: SoundFont, f: FontFolder) -> bool {
    &&& font.name@ == folder_label(f)
    &&& font.path == f.path
    &&& font.size_bytes == f.size_bytes
    &&& font.file_count == f.file_count
}

/// `fonts` are the labelled folders of `found`, sorted stably by the lower-case
/// label.
pub open spec fn is_library_of(fonts: Seq<SoundFont>, found: Seq<FontFolder>) -> bool {
    exists|order: Seq<usize>|
        {
            &&& #[trigger] is_stable_order(label_keys(found), order)
            &&& fonts.len() == order.len()
            &&& forall|k: int|
                0 <= k < fonts.len() ==> font_of_folder(
                    #[trigger] fonts[k],
                    labelled_folders(found)[order[k] as int],
                )
        }
}

/// The library listing is determined by the folders found: two listings
/// of the same folders agree font by font.
pub proof fn law_library_listing_unique(found: Seq<FontFolder>, a: Seq<SoundFont>, b: Seq<SoundFont>)
    requires
        is_library_of(a, found),
        is_library_of(b, found),
    ensures
        a.len() == b.len(),
        forall|k: int|
            0 <= k < a.len() ==> (#[trigger] a[k]).name@ == b[k].name@ && a[k].path == b[k].path
                && a[k].size_bytes == b[k].size_bytes && a[k].file_count == b[k].file_count,
{
    let oa = choose|order: Seq<usize>|
        {
            &&& #[trigger] is_stable_order(label_keys(found), order)
            &&& a.len() == order.len()
            &&& forall|k: int|
                0 <= k < a.len() ==> font_of_folder(
                    #[trigger] a[k],
                    labelled_folders(found)[order[k] as int],
                )
        };
    let ob = choose|order: Seq<usize>|
        {
            &&& #[trigger] is_stable_order(label_keys(found), order)
            &&& b.len() == order.len()
            &&& forall|k: int|
                0 <= k < b.len() ==> font_of_folder(
                    #[trigger] b[k],
                    labelled_folders(found)[order[k] as int],
                )
        };
    crate::sorting::lemma_stable_order_unique(label_keys(found), oa, ob);
    assert forall|k: int| 0 <= k < a.len() implies (#[trigger] a[k]).name@ == b[k].name@
        && a[k].path == b[k].path && a[k].size_bytes == b[k].size_bytes && a[k].file_count
        == b[k].file_count by {
        assert(font_of_folder(a[k], labelled_folders(found)[oa[k] as int]));
        assert(font_of_folder(b[k], labelled_folders(found)[ob[k] as int]));
    }
}

/// The parts joined with `_` between them.
pub fn join_components(parts: &Vec<String>) -> (r: String)
    ensures
        r@ == join_underscore(views(parts@)),
{
    let mut r = String::new();
    let mut i: usize = 0;
    while i < parts.len()
        invariant
            i <= parts.len(),
            r@ == join_underscore(views(parts@).take(i as int)),
        decreases parts.len() - i,
    {
        proof {
            let t = views(parts@).take(i + 1);
            assert(t.drop_last() =~= views(parts@).take(i as int));
            assert(t.last() == parts@[i as int]@);
            if i == 0 {
                assert(views(parts@).take(0) =~= Seq::<Seq<char>>::empty());
            }
        }
        if i > 0 {
            push_char(&mut r, '_');
        }
        r.append(parts[i].as_str());
        i = i + 1;
    }
    assert(views(parts@).take(parts.len() as int) =~= views(parts@));
    r
}

/// Build the library listing from the folders that hold a `config.ini`:
/// each folder is named by its relative path with separators replaced by
/// `_`; a folder with an empty name (the library root) is skipped; the
/// fonts are sorted by their lower-case names, stably.
pub fn library_from_folders(found: &Vec<FontFolder>) -> (r: Vec<SoundFont>)
    ensures
        is_library_of(r@, found@),
{
    let mut kept: Vec<SoundFont> = Vec::new();
    let mut keys: Vec<Vec<char>> = Vec::new();
    let mut i: usize = 0;
    while i < found.len()
        invariant
            i <= found.len(),
            kept.len() == keys.len(),
            kept.len() == labelled_folders(found@.take(i as int)).len(),
            forall|k: int|
                0 <= k < kept.len() ==> font_of_folder(
                    #[trigger] kept@[k],
                    labelled_folders(found@.take(i as int))[k],
                ),
            forall|k: int|
                0 <= k < keys.len() ==> #[trigger] keys@[k]@ == lowercase(
                    folder_label(labelled_folders(found@.take(i as int))[k]),
                ),
        decreases found.len() - i,
    {
        let f = &found[i];
        let name = join_components(&f.components);
        proof {
            assert(found@.take(i + 1).drop_last() =~= found@.take(i as int));
            assert(found@.take(i + 1).last() == found@[i as int]);
        }
        if name.unicode_len() > 0 {
            let key = chars_of(to_lowercase(name.as_str()).as_str());
            kept.push(
                SoundFont {
                    name,
                    path: f.path.clone(),
                    size_bytes: f.size_bytes,
                    file_count: f.file_count,
                },
            );
            keys.push(key);
        }
        i = i + 1;
    }
    assert(found@.take(found.len() as int) =~= found@);
    let order = stable_order(&keys);
    let ghost ks = keys@.map_values(|k: Vec<char>| k@);
    assert(ks =~= label_keys(found@));
    let mut r: Vec<SoundFont> = Vec::new();
    let mut k: usize = 0;
    while k < order.len()
        invariant
            is_stable_order(ks, order@),
            ks == label_keys(found@),
            kept.len() == ks.len(),
            forall|t: int|
                0 <= t < kept.len() ==> font_of_folder(
                    #[trigger] kept@[t],
                    labelled_folders(found@)[t],
                ),
            k <= order.len(),
            r.len() == k,
            forall|t: int|
                0 <= t < k ==> font_of_folder(
                    #[trigger] r@[t],
                    labelled_folders(found@)[order@[t] as int],
                ),
        decreases order.len() - k,
    {
        r.push(kept[order[k]].duplicate());
        k = k + 1;
    }
    assert(is_stable_order(label_keys(found@), order@));
    r
}

/// Total bytes and number of the files of a folder, given each file's size.
pub open spec fn sum_u64(s: Seq<u64>) -> nat
    decreases s.len(),
{
    if s.len() == 0 {
        0
    } else {
        sum_u64(s.drop_last()) + s.last() as nat
    }
}

/// Sum the sizes of the files below a folder and count them; `None` where
/// the sum does not fit in a `u64`.
pub fn dir_stats(file_sizes: &Vec<u64>) -> (r: Option<(u64, u64)>)
    ensures
        match r {
            Some((total, count)) => total == sum_u64(file_sizes@) && count == file_sizes.len(),
            None => sum_u64(file_sizes@) > u64::MAX,
        },
{
    let mut total: u64 = 0;
    let mut count: u64 = 0;
    let mut i: usize = 0;
    while i < file_sizes.len()
        invariant
            i <= file_sizes.len(),
            total == sum_u64(file_sizes@.take(i as int)),
            count == i,
        decreases file_sizes.len() - i,
    {
        proof {
            assert(file_sizes@.take(i + 1).drop_last() =~= file_sizes@.take(i as int));
            lemma_sum_u64_prefix(file_sizes@, i + 1);
        }
        if total > u64::MAX - file_sizes[i] {
            return None;
        }
        total = total + file_sizes[i];
        count = count + 1;
        i = i + 1;
    }
    assert(file_sizes@.take(file_sizes.len() as int) =~= file_sizes@);
    Some((total, count))
}

/// A prefix sums to no more than the whole.
pub proof fn lemma_sum_u64_prefix(s: Seq<u64>, n: int)
    requires
        0 <= n <= s.len(),
    ensures
        sum_u64(s.take(n)) <= sum_u64(s),
    decreases s.len(),
{
    if n < s.len() {
        lemma_sum_u64_prefix(s.drop_last(), n);
        assert(s.drop_last().take(n) =~= s.take(n));
    } else {
        assert(s.take(n) =~= s);
    }
}

/// The total size of all fonts of the library.
pub open spec fn library_size_of(lib: Seq<SoundFont>) -> nat
    decreases lib.len(),
{
    if lib.len() == 0 {
        0
    } else {
        library_size_of(lib.drop_last()) + lib.last().size_bytes as nat
    }
}

proof fn lemma_library_size_prefix(lib: Seq<SoundFont>, n: int)
    requires
        0 <= n <= lib.len(),
    ensures
        library_size_of(lib.take(n)) <= library_size_of(lib),
    decreases lib.len(),
{
    if n < lib.len() {
        lemma_library_size_prefix(lib.drop_last(), n);
        assert(lib.drop_last().take(n) =~= lib.take(n));
    } else {
        assert(lib.take(n) =~= lib);
    }
}

/// The total size of all fonts of the library, or `None` where it does not
/// fit in a `u64`.
pub fn library_size(library: &Vec<SoundFont>) -> (r: Option<u64>)
    ensures
        match r {
            Some(t) => t == library_size_of(library@),
            None => library_size_of(library@) > u64::MAX,
        },
{
    let mut total: u64 = 0;
    let mut i: usize = 0;
    while i < library.len()
        invariant
            i <= library.len(),
            total == library_size_of(library@.take(i as int)),
        decreases library.len() - i,
    {
        proof {
            assert(library@.take(i + 1).drop_last() =~= library@.take(i as int));
            lemma_library_size_prefix(library@, i + 1);
        }
        if total > u64::MAX - library[i].size_bytes {
            return None;
        }
        total = total + library[i].size_bytes;
        i = i + 1;
    }
    assert(library@.take(library.len() as int) =~= library@);
    Some(total)
}

// ─── Export ─────────────────────────────────────────────────────────────────

/// The index of the first font of `lib`, from `i` on, named `name`.
pub open spec fn find_font_from(lib: Seq<SoundFont>, name: Seq<char>, i: int) -> Option<int>
    decreases lib.len() - i,
{
    if i < 0 || i >= lib.len() {
        None
    } else if lib[i].name@ == name {
        Some(i)
    } else {
        find_font_from(lib, name, i + 1)
    }
}

/// A found index is in range and names `name`.
pub proof fn lemma_find_font_from(lib: Seq<SoundFont>, name: Seq<char>, i: int)
    ensures
        find_font_from(lib, name, i) matches Some(j) ==> i <= j < lib.len() && lib[j].name@ == name,
    decreases lib.len() - i,
{
    if 0 <= i < lib.len() && lib[i].name@ != name {
        lemma_find_font_from(lib, name, i + 1);
    }
}

/// The index of the first font of `lib` named `name`.
pub open spec fn find_font(lib: Seq<SoundFont>, name: Seq<char>) -> Option<int> {
    find_font_from(lib, name, 0)
}

/// The first font in `library` named `name`, by index.
pub fn find_font_index(library: &Vec<SoundFont>, name: &String) -> (r: Option<usize>)
    ensures
        match r {
            Some(i) => find_font(library@, name@) == Some(i as int) && i < library.len(),
            None => find_font(library@, name@) is None,
        },
{
    proof {
        lemma_find_font_from(library@, name@, 0);
    }
    let mut i: usize = 0;
    while i < library.len()
        invariant
            i <= library.len(),
            find_font(library@, name@) == find_font_from(library@, name@, i as int),
        decreases library.len() - i,
    {
        if library[i].name == *name {
            return Some(i);
        }
        i = i + 1;
    }
    None
}

/// One slot of a numbered export.
pub enum ExportStep {
    /// The font is not in the library: nothing is copied.
    Skip { log: String },
    /// Copy the folder `source` to `dest_name` inside the export folder.
    Copy { name: String, source: PathBuf, dest_name: String, log: String },
}

/// The destination folder of slot `slot` (0-based): the 1-based slot number,
/// a dash, and the leaf name of the font's folder (the font's name where the
/// path has none).
pub open spec fn dest_folder_name(slot: nat, leaf: Option<String>, name: Seq<char>) -> Seq<char> {
    let last = match leaf {
        Some(l) => l@,
        None => name,
    };
    decimal(slot + 1) + seq!['-'] + last
}

/// What slot `slot` of an export of the font `name` from `lib` does, where
/// `leaves[i]` is the last component of the path of `lib[i]`.
pub open spec fn export_step_ok(
    lib: Seq<SoundFont>,
    leaves: Seq<Option<String>>,
    name: Seq<char>,
    slot: nat,
    step: ExportStep,
) -> bool {
    match find_font(lib, name) {
        None => step matches ExportStep::Skip { log } && log@ == "SKIP "@ + name
            + " (not found in library)"@,
        Some(i) => step matches ExportStep::Copy { name: n, source, dest_name, log } && n@ == name
            && source == lib[i].path && dest_name@ == dest_folder_name(slot, leaves[i], name) && log@
            == "\u{2713} "@ + name + "  \u{2192}  "@ + dest_name@,
    }
}

/// Plan the export of a profile: slot `i` (index 0 is slot 1) copies the
/// first library font named `font_names[i]` into `"<i+1>-<leaf>"`, or is
/// skipped when no font has that name. The library is not renumbered.
/// `leaves[k]` is the last component of the path of `library[k]`, as
/// `Path::file_name` gives it in text form.
pub fn plan_export(
    library: &Vec<SoundFont>,
    leaves: &Vec<Option<String>>,
    font_names: &Vec<String>,
) -> (r: Vec<ExportStep>)
    requires
        leaves.len() == library.len(),
    ensures
        r.len() == font_names.len(),
        forall|i: int|
            0 <= i < r.len() ==> export_step_ok(
                library@,
                leaves@,
                font_names@[i]@,
                i as nat,
                #[trigger] r@[i],
            ),
{
    let mut r: Vec<ExportStep> = Vec::new();
    let mut slot: usize = 0;
    while slot < font_names.len()
        invariant
            slot <= font_names.len(),
            r.len() == slot,
            leaves.len() == library.len(),
            forall|i: int|
                0 <= i < r.len() ==> export_step_ok(
                    library@,
                    leaves@,
                    font_names@[i]@,
                    i as nat,
                    #[trigger] r@[i],
                ),
        decreases font_names.len() - slot,
    {
        let name = &font_names[slot];
        match find_font_index(library, name) {
            None => {
                let mut log = String::from_str("SKIP ");
                log.append(name.as_str());
                log.append(" (not found in library)");
                r.push(ExportStep::Skip { log });
            },
            Some(i) => {
                let font = &library[i];
                let leaf = match &leaves[i] {
                    Some(l) => l.clone(),
                    None => name.clone(),
                };
                let mut dest_name = String::new();
                push_decimal(&mut dest_name, slot as u64 + 1);
                push_char(&mut dest_name, '-');
                dest_name.append(leaf.as_str());
                let mut log = String::from_str("\u{2713} ");
                log.append(name.as_str());
                log.append("  \u{2192}  ");
                log.append(dest_name.as_str());
                assert(dest_name@ =~= dest_folder_name(slot as nat, leaves@[i as int], name@));
                r.push(ExportStep::Copy { name: name.clone(), source: font.path.clone(), dest_name, log });
            },
        }
        slot = slot + 1;
    }
    r
}

} // verus!
