//! Packages of the AUR: their metadata, their dependencies and their addresses.

use crate::text::{
    chars_of, string_of, texts, trim, trimmed, trimmed_end, trimmed_start,
    trimming_leaves_the_core, white_space,
};
use vstd::prelude::*;
use vstd::utf8::{encode_utf8, encode_utf8_decode_utf8};

verus! {

/// What the AUR says of a package.
#[derive(Debug)]
pub struct AurPackageInfo {
    pub name: String,
    pub version: String,
    pub description: Option<String>,
    pub package_base: String,
    pub depends: Vec<String>,
    pub makedepends: Vec<String>,
    pub checkdepends: Vec<String>,
}

/// The text of an optional string.
pub open spec fn optional_text(s: Option<String>) -> Option<Seq<char>> {
    match s {
        Some(t) => Some(t@),
        None => None,
    }
}

/// The texts that the metadata of an AUR package holds.
#[verifier::ext_equal]
pub struct AurInfo {
    pub name: Seq<char>,
    pub version: Seq<char>,
    pub description: Option<Seq<char>>,
    pub package_base: Seq<char>,
    pub depends: Seq<Seq<char>>,
    pub makedepends: Seq<Seq<char>>,
    pub checkdepends: Seq<Seq<char>>,
}

impl View for AurPackageInfo {
    type V = AurInfo;

    open spec fn view(&self) -> AurInfo {
        AurInfo {
            name: self.name@,
            version: self.version@,
            description: optional_text(self.description),
            package_base: self.package_base@,
            depends: texts(self.depends@),
            makedepends: texts(self.makedepends@),
            checkdepends: texts(self.checkdepends@),
        }
    }
}

impl AurInfo {
    /// The dependencies to run, to make and to check the package, in this order.
    pub open spec fn dependencies(self) -> Seq<Seq<char>> {
        self.depends + self.makedepends + self.checkdepends
    }
}

impl Clone for AurPackageInfo {
    fn clone(&self) -> (r: Self)
        ensures
            r@ == self@,
    {
        AurPackageInfo {
            name: self.name.clone(),
            version: self.version.clone(),
            description: match &self.description {
                Some(d) => Some(d.clone()),
                None => None,
            },
            package_base: self.package_base.clone(),
            depends: crate::text::copy_strings(&self.depends),
            makedepends: crate::text::copy_strings(&self.makedepends),
            checkdepends: crate::text::copy_strings(&self.checkdepends),
        }
    }
}

fn append_copies(to: &mut Vec<String>, from: &Vec<String>)
    ensures
        texts(final(to)@) == texts(old(to)@) + texts(from@),
{
    let mut i: usize = 0;
    let ghost before = texts(to@);
    assert(texts(from@).take(0) =~= Seq::<Seq<char>>::empty());
    while i < from.len()
        invariant
            i <= from@.len(),
            texts(to@) =~= before + texts(from@).take(i as int),
        decreases from@.len() - i,
    {
        let ghost held = to@;
        to.push(from[i].clone());
        i += 1;
        assert(texts(to@) =~= texts(held).push(from@[i - 1]@));
        assert(texts(from@).take(i as int) =~= texts(from@).take(i - 1).push(from@[i - 1]@));
    }
    assert(texts(from@).take(i as int) =~= texts(from@));
}

/// The dependencies of a package as the AUR gives them: to run, to make, to check.
pub fn aur_dependencies(info: &AurPackageInfo) -> (r: Vec<String>)
    ensures
        texts(r@) == info@.dependencies(),
{
    let mut r: Vec<String> = Vec::new();
    assert(texts(r@) =~= Seq::<Seq<char>>::empty());
    append_copies(&mut r, &info.depends);
    append_copies(&mut r, &info.makedepends);
    append_copies(&mut r, &info.checkdepends);
    assert(texts(r@) =~= info@.dependencies());
    r
}

/// Whether `c` begins a version requirement.
pub open spec fn is_relation(c: char) -> bool {
    c == '<' || c == '>' || c == '='
}

/// The part of a dependency before its version requirement.
pub open spec fn before_relation(dep: Seq<char>) -> Seq<char>
    decreases dep.len(),
{
    if dep.len() == 0 || is_relation(dep[0]) {
        seq![]
    } else {
        seq![dep[0]] + before_relation(dep.drop_first())
    }
}

/// The name of the package that a dependency asks for.
pub open spec fn dep_name(dep: Seq<char>) -> Seq<char> {
    trimmed(before_relation(dep))
}

/// Takes the package name out of a dependency: what stands before the version requirement, without
/// white space around it.
pub fn normalize_dep_name(dep: &str) -> (r: String)
    ensures
        r@ == dep_name(dep@),
{
    let chars = chars_of(dep);
    let n: usize = chars.len();
    let mut i: usize = 0;
    assert(dep@.skip(0) =~= dep@);
    assert(dep@.take(0) + before_relation(dep@) =~= before_relation(dep@));
    while i < n && !(chars[i] == '<' || chars[i] == '>' || chars[i] == '=')
        invariant
            i <= n == chars@.len(),
            chars@ == dep@,
            before_relation(dep@) == dep@.take(i as int) + before_relation(dep@.skip(i as int)),
        decreases n - i,
    {
        assert(dep@.skip(i as int).drop_first() =~= dep@.skip(i + 1));
        assert(dep@.take(i as int) + (seq![dep@[i as int]] + before_relation(dep@.skip(i + 1)))
            =~= dep@.take(i + 1) + before_relation(dep@.skip(i + 1)));
        i += 1;
    }
    let name = string_of(&chars, 0, i);
    assert(name@ =~= before_relation(dep@));
    trim(name.as_str()).to_owned()
}

proof fn lemma_trimmed_is_part(s: Seq<char>)
    ensures
        forall|i: int| 0 <= i < trimmed(s).len() ==> s.contains(#[trigger] trimmed(s)[i]),
        trimmed(s).len() > 0 ==> !white_space(trimmed(s)[0]) && !white_space(trimmed(s).last()),
{
    lemma_trimmed_start(s);
    let front = trimmed_start(s);
    lemma_trimmed_end(front);
    assert forall|i: int| 0 <= i < trimmed(s).len() implies s.contains(#[trigger] trimmed(s)[i]) by {
        assert(trimmed_end(front)[i] == front[i]);
        let k = s.len() - front.len();
        assert(front[i] == s[k + i]);
    }
}

proof fn lemma_trimmed_start(s: Seq<char>)
    ensures
        trimmed_start(s).len() <= s.len(),
        trimmed_start(s) == s.skip(s.len() - trimmed_start(s).len()),
        trimmed_start(s).len() > 0 ==> !white_space(trimmed_start(s)[0]),
    decreases s.len(),
{
    if s.len() > 0 && white_space(s[0]) {
        lemma_trimmed_start(s.drop_first());
        let rest = trimmed_start(s);
        assert(s.drop_first().skip(s.len() - 1 - rest.len()) =~= s.skip(s.len() - rest.len()));
    } else {
        assert(s.skip(0) =~= s);
    }
}

proof fn lemma_trimmed_end(s: Seq<char>)
    ensures
        trimmed_end(s).len() <= s.len(),
        trimmed_end(s) == s.take(trimmed_end(s).len() as int),
        trimmed_end(s).len() > 0 ==> !white_space(trimmed_end(s).last()),
    decreases s.len(),
{
    if s.len() > 0 && white_space(s.last()) {
        lemma_trimmed_end(s.drop_last());
        let rest = trimmed_end(s);
        assert(s.drop_last().take(rest.len() as int) =~= s.take(rest.len() as int));
    } else {
        assert(s.take(s.len() as int) =~= s);
    }
}

proof fn lemma_before_relation(dep: Seq<char>)
    ensures
        forall|i: int|
            0 <= i < before_relation(dep).len() ==> !is_relation(#[trigger] before_relation(dep)[i]),
        (forall|i: int| 0 <= i < dep.len() ==> !is_relation(#[trigger] dep[i]))
            ==> before_relation(dep) == dep,
    decreases dep.len(),
{
    if dep.len() > 0 && !is_relation(dep[0]) {
        let rest = dep.drop_first();
        lemma_before_relation(rest);
        assert forall|i: int| 0 <= i < before_relation(dep).len() implies !is_relation(
            #[trigger] before_relation(dep)[i],
        ) by {
            if i > 0 {
                assert(before_relation(dep)[i] == before_relation(rest)[i - 1]);
            }
        }
        if forall|i: int| 0 <= i < dep.len() ==> !is_relation(#[trigger] dep[i]) {
            assert forall|i: int| 0 <= i < rest.len() implies !is_relation(#[trigger] rest[i]) by {
                assert(rest[i] == dep[i + 1]);
            }
            assert(before_relation(dep) =~= dep);
        }
    } else if dep.len() == 0 {
        assert(before_relation(dep) =~= dep);
    }
}

/// A package name holds no version requirement and no white space around it, and taking the name
/// out of a name gives the name.
pub proof fn dep_name_is_a_name(dep: Seq<char>)
    ensures
        forall|i: int| 0 <= i < dep_name(dep).len() ==> !is_relation(#[trigger] dep_name(dep)[i]),
        dep_name(dep).len() > 0 ==> !white_space(dep_name(dep)[0]) && !white_space(
            dep_name(dep).last(),
        ),
        dep_name(dep_name(dep)) == dep_name(dep),
{
    let front = before_relation(dep);
    let name = dep_name(dep);
    lemma_before_relation(dep);
    lemma_trimmed_is_part(front);
    assert forall|i: int| 0 <= i < name.len() implies !is_relation(#[trigger] name[i]) by {
        assert(front.contains(trimmed(front)[i]));
        let k = choose|k: int| 0 <= k < front.len() && front[k] == name[i];
        assert(!is_relation(front[k]));
    }
    lemma_before_relation(name);
    assert(before_relation(name) == name);
    assert(trimmed(name) == name);
}

/// Whether a byte stands for itself in an address.
pub open spec fn is_unreserved(b: u8) -> bool {
    ||| 'a' as u8 <= b <= 'z' as u8
    ||| 'A' as u8 <= b <= 'Z' as u8
    ||| '0' as u8 <= b <= '9' as u8
    ||| b == '-' as u8
    ||| b == '_' as u8
    ||| b == '.' as u8
    ||| b == '~' as u8
}

/// The hexadecimal digit for a number below sixteen.
pub open spec fn hex_digit(n: int) -> char {
    if n < 10 {
        (48 + n) as char
    } else {
        (55 + n) as char
    }
}

/// How a byte is written in an address.
pub open spec fn encoded_byte(b: u8) -> Seq<char> {
    if is_unreserved(b) {
        seq![b as char]
    } else {
        seq!['%', hex_digit(b as int / 16), hex_digit(b as int % 16)]
    }
}

/// How bytes are written in an address.
pub open spec fn percent_encoded(bytes: Seq<u8>) -> Seq<char>
    decreases bytes.len(),
{
    if bytes.len() == 0 {
        seq![]
    } else {
        encoded_byte(bytes[0]) + percent_encoded(bytes.drop_first())
    }
}

/// How a text is written in an address: its UTF-8 bytes, each as itself or by its number.
pub open spec fn url_encoded(text: Seq<char>) -> Seq<char> {
    percent_encoded(encode_utf8(text))
}

fn stands_for_itself(b: u8) -> (r: bool)
    ensures
        r == is_unreserved(b),
{
    let c = b as char;
    ('a' <= c && c <= 'z') || ('A' <= c && c <= 'Z') || ('0' <= c && c <= '9') || c == '-' || c
        == '_' || c == '.' || c == '~'
}

fn hex(n: u8) -> (r: char)
    requires
        n < 16,
    ensures
        r == hex_digit(n as int),
{
    if n < 10 {
        (48 + n) as char
    } else {
        (55 + n) as char
    }
}

/// Writes a text so that it can be a part of an address.
pub fn url_encode(input: &str) -> (r: String)
    ensures
        r@ == url_encoded(input@),
{
    let bytes = input.as_bytes();
    let ghost all = encode_utf8(input@);
    let n: usize = bytes.len();
    let mut r = String::new();
    let mut i: usize = 0;
    assert(all.skip(0) =~= all);
    assert(r@ + percent_encoded(all) =~= percent_encoded(all));
    while i < n
        invariant
            i <= n == bytes@.len(),
            bytes@ == all,
            r@ + percent_encoded(all.skip(i as int)) == percent_encoded(all),
        decreases n - i,
    {
        let ghost held = r@;
        let ghost rest = percent_encoded(all.skip(i + 1));
        assert(all.skip(i as int).drop_first() =~= all.skip(i + 1));
        let b: u8 = bytes[i];
        if stands_for_itself(b) {
            r.push(b as char);
            assert(r@ =~= held + encoded_byte(b));
        } else {
            r.push('%');
            r.push(hex(b / 16));
            r.push(hex(b % 16));
            assert(r@ =~= held + encoded_byte(b));
        }
        assert(held + encoded_byte(b) + rest =~= held + (encoded_byte(b) + rest));
        i += 1;
    }
    assert(all.skip(n as int) =~= Seq::<u8>::empty());
    assert(r@ =~= percent_encoded(all));
    r
}

/// Whether a character can stand in an encoded text.
pub open spec fn is_address_char(c: char) -> bool {
    c == '%' || (c as int) < 128 && is_unreserved(c as u8)
}

proof fn lemma_encoded_chars(bytes: Seq<u8>)
    ensures
        forall|i: int|
            0 <= i < percent_encoded(bytes).len() ==> is_address_char(
                #[trigger] percent_encoded(bytes)[i],
            ),
    decreases bytes.len(),
{
    if bytes.len() > 0 {
        lemma_encoded_chars(bytes.drop_first());
        let first = encoded_byte(bytes[0]);
        assert forall|i: int| 0 <= i < percent_encoded(bytes).len() implies is_address_char(
            #[trigger] percent_encoded(bytes)[i],
        ) by {
            if i >= first.len() {
                assert(percent_encoded(bytes)[i] == percent_encoded(bytes.drop_first())[i
                    - first.len()]);
            } else {
                assert(percent_encoded(bytes)[i] == first[i]);
            }
        }
    }
}

/// An encoded text cannot end the part of the address that it stands in: it is made of letters,
/// digits, `-`, `_`, `.`, `~` and `%` only.
pub proof fn url_encoded_is_one_part(text: Seq<char>)
    ensures
        forall|i: int|
            0 <= i < url_encoded(text).len() ==> is_address_char(#[trigger] url_encoded(text)[i]),
{
    lemma_encoded_chars(encode_utf8(text));
}

proof fn lemma_percent_encoded_is_injective(a: Seq<u8>, b: Seq<u8>)
    requires
        percent_encoded(a) == percent_encoded(b),
    ensures
        a == b,
    decreases a.len(),
{
    if a.len() == 0 || b.len() == 0 {
        if a.len() > 0 {
            assert(percent_encoded(a)[0] == encoded_byte(a[0])[0]);
        }
        if b.len() > 0 {
            assert(percent_encoded(b)[0] == encoded_byte(b[0])[0]);
        }
        assert(a =~= b);
    } else {
        let whole = percent_encoded(a);
        let x = encoded_byte(a[0]);
        let y = encoded_byte(b[0]);
        assert(whole[0] == x[0] && whole[0] == y[0]);
        assert(x.len() == y.len());
        assert(whole.take(x.len() as int) =~= x);
        assert(whole.take(y.len() as int) =~= y);
        assert(a[0] == b[0]) by {
            if !is_unreserved(a[0]) {
                assert(x[1] == y[1] && x[2] == y[2]);
            }
        }
        assert(whole.skip(x.len() as int) =~= percent_encoded(a.drop_first()));
        assert(whole.skip(y.len() as int) =~= percent_encoded(b.drop_first()));
        lemma_percent_encoded_is_injective(a.drop_first(), b.drop_first());
        assert(a =~= seq![a[0]] + a.drop_first());
        assert(b =~= seq![b[0]] + b.drop_first());
    }
}

/// Different texts are encoded differently.
pub proof fn url_encoded_is_injective(a: Seq<char>, b: Seq<char>)
    requires
        url_encoded(a) == url_encoded(b),
    ensures
        a == b,
{
    lemma_percent_encoded_is_injective(encode_utf8(a), encode_utf8(b));
    encode_utf8_decode_utf8(a);
    encode_utf8_decode_utf8(b);
}

/// The address at which the AUR tells about a package.
pub fn info_url(name: &str) -> (r: String)
    ensures
        r@ == "https://aur.archlinux.org/rpc/v5/info/"@ + url_encoded(name@),
{
    String::from_str("https://aur.archlinux.org/rpc/v5/info/").concat(url_encode(name).as_str())
}

/// The address at which the AUR is searched.
pub open spec fn search_address(query: Seq<char>) -> Seq<char> {
    "https://aur.archlinux.org/rpc/v5/search/"@ + url_encoded(query)
}

/// The address at which the AUR is searched.
pub fn search_url(query: &str) -> (r: String)
    ensures
        r@ == search_address(query@),
{
    String::from_str("https://aur.archlinux.org/rpc/v5/search/").concat(url_encode(query).as_str())
}

proof fn lemma_name_ends_at_relation(name: Seq<char>, rest: Seq<char>)
    requires
        forall|i: int|
            0 <= i < name.len() ==> #[trigger] name[i] != '<' && name[i] != '>' && name[i] != '=',
        rest.len() > 0 ==> rest[0] == '<' || rest[0] == '>' || rest[0] == '=',
    ensures
        before_relation(name + rest) == name,
    decreases name.len(),
{
    let dep = name + rest;
    if name.len() == 0 {
        assert(before_relation(dep) =~= name);
    } else {
        let shorter = name.drop_first();
        assert(dep[0] == name[0]);
        assert(dep.drop_first() =~= shorter + rest);
        lemma_name_ends_at_relation(shorter, rest);
        assert(seq![dep[0]] + shorter =~= name);
    }
}

/// The name of a dependency is all that stands before the first `<`, `>` or `=`, but for the white
/// space around it: whatever else the name holds belongs to it.
pub proof fn dep_name_is_what_stands_before_the_relation(
    front: Seq<char>,
    name: Seq<char>,
    back: Seq<char>,
    rest: Seq<char>,
)
    requires
        forall|i: int| 0 <= i < front.len() ==> white_space(#[trigger] front[i]),
        forall|i: int| 0 <= i < back.len() ==> white_space(#[trigger] back[i]),
        name.len() > 0 ==> !white_space(name[0]) && !white_space(name.last()),
        forall|i: int|
            0 <= i < name.len() ==> #[trigger] name[i] != '<' && name[i] != '>' && name[i] != '=',
        rest.len() > 0 ==> rest[0] == '<' || rest[0] == '>' || rest[0] == '=',
    ensures
        dep_name(front + name + back + rest) == name,
{
    let all = front + name + back;
    assert forall|i: int| 0 <= i < all.len() implies #[trigger] all[i] != '<' && all[i] != '>'
        && all[i] != '=' by {
        if i < front.len() {
            assert(white_space(front[i]));
        } else if i < front.len() + name.len() {
            assert(all[i] == name[i - front.len()]);
        } else {
            assert(white_space(back[i - front.len() - name.len()]));
        }
    }
    lemma_name_ends_at_relation(all, rest);
    trimming_leaves_the_core(front, name, back);
}

/// A name is its own name, and stays so whatever version is required of it.
pub proof fn version_requirement_is_no_part_of_the_name(name: Seq<char>, version: Seq<char>)
    requires
        name.len() > 0 ==> !white_space(name[0]) && !white_space(name.last()),
        forall|i: int|
            0 <= i < name.len() ==> #[trigger] name[i] != '<' && name[i] != '>' && name[i] != '=',
    ensures
        dep_name(name) == name,
        dep_name(name + ">="@ + version) == name,
        dep_name(name + "<="@ + version) == name,
        dep_name(name + "="@ + version) == name,
        dep_name(name + ">"@ + version) == name,
        dep_name(name + "<"@ + version) == name,
{
    reveal_strlit(">=");
    reveal_strlit("<=");
    reveal_strlit("=");
    reveal_strlit(">");
    reveal_strlit("<");
    let none = Seq::<char>::empty();
    let bare = none + name + none;
    assert(bare =~= name);
    assert(bare + none =~= name);
    dep_name_is_what_stands_before_the_relation(none, name, none, none);
    dep_name_is_what_stands_before_the_relation(none, name, none, ">="@ + version);
    assert(bare + (">="@ + version) =~= name + ">="@ + version);
    dep_name_is_what_stands_before_the_relation(none, name, none, "<="@ + version);
    assert(bare + ("<="@ + version) =~= name + "<="@ + version);
    dep_name_is_what_stands_before_the_relation(none, name, none, "="@ + version);
    assert(bare + ("="@ + version) =~= name + "="@ + version);
    dep_name_is_what_stands_before_the_relation(none, name, none, ">"@ + version);
    assert(bare + (">"@ + version) =~= name + ">"@ + version);
    dep_name_is_what_stands_before_the_relation(none, name, none, "<"@ + version);
    assert(bare + ("<"@ + version) =~= name + "<"@ + version);
}

/// The dependencies of a package are those to run it, those to make it and those to check it: all
/// of them, and no others.
pub proof fn every_dependency_counts(info: AurInfo)
    ensures
        info.dependencies().len() == info.depends.len() + info.makedepends.len()
            + info.checkdepends.len(),
        forall|i: int|
            0 <= i < info.depends.len() ==> #[trigger] info.depends[i] == info.dependencies()[i],
        forall|i: int|
            0 <= i < info.makedepends.len() ==> #[trigger] info.makedepends[i]
                == info.dependencies()[info.depends.len() + i],
        forall|i: int|
            0 <= i < info.checkdepends.len() ==> #[trigger] info.checkdepends[i]
                == info.dependencies()[info.depends.len() + info.makedepends.len() + i],
{
}

proof fn lemma_percent_encoded_of_parts(a: Seq<u8>, b: Seq<u8>)
    ensures
        percent_encoded(a + b) == percent_encoded(a) + percent_encoded(b),
    decreases a.len(),
{
    if a.len() == 0 {
        assert(a + b =~= b);
        assert(percent_encoded(a) + percent_encoded(b) =~= percent_encoded(b));
    } else {
        assert((a + b)[0] == a[0]);
        assert((a + b).drop_first() =~= a.drop_first() + b);
        lemma_percent_encoded_of_parts(a.drop_first(), b);
        assert(encoded_byte(a[0]) + (percent_encoded(a.drop_first()) + percent_encoded(b))
            =~= encoded_byte(a[0]) + percent_encoded(a.drop_first()) + percent_encoded(b));
    }
}

proof fn lemma_encode_utf8_of_parts(a: Seq<char>, b: Seq<char>)
    ensures
        encode_utf8(a + b) == encode_utf8(a) + encode_utf8(b),
    decreases a.len(),
{
    if a.len() == 0 {
        assert(a + b =~= b);
        assert(encode_utf8(a) + encode_utf8(b) =~= encode_utf8(b));
    } else {
        assert((a + b)[0] == a[0]);
        assert((a + b).drop_first() =~= a.drop_first() + b);
        lemma_encode_utf8_of_parts(a.drop_first(), b);
        assert(encode_utf8(a + b) =~= encode_utf8(a) + encode_utf8(b));
    }
}

/// Every character is encoded by itself, whatever stands around it.
pub proof fn parts_are_encoded_alike(a: Seq<char>, b: Seq<char>)
    ensures
        url_encoded(a + b) == url_encoded(a) + url_encoded(b),
{
    lemma_encode_utf8_of_parts(a, b);
    lemma_percent_encoded_of_parts(encode_utf8(a), encode_utf8(b));
}

/// Letters, digits and `-`, `_`, `.`, `~` stand for themselves; every other byte is written as a
/// percent sign and its two hexadecimal digits.
pub proof fn bytes_are_written_by_their_numbers(b: u8)
    ensures
        'a' as u8 <= b <= 'z' as u8 || 'A' as u8 <= b <= 'Z' as u8 || '0' as u8 <= b <= '9' as u8
            || b == '-' as u8 || b == '_' as u8 || b == '.' as u8 || b == '~' as u8
            ==> percent_encoded(seq![b]) == seq![b as char],
        !('a' as u8 <= b <= 'z' as u8 || 'A' as u8 <= b <= 'Z' as u8 || '0' as u8 <= b
            <= '9' as u8 || b == '-' as u8 || b == '_' as u8 || b == '.' as u8 || b == '~' as u8)
            ==> {
            let digits = seq![
                '0', '1', '2', '3', '4', '5', '6', '7', '8', '9', 'A', 'B', 'C', 'D', 'E', 'F',
            ];
            percent_encoded(seq![b]) == seq!['%', digits[b as int / 16], digits[b as int % 16]]
        },
{
    let one = seq![b];
    assert(one.drop_first() =~= Seq::<u8>::empty());
    assert(percent_encoded(Seq::<u8>::empty()) =~= Seq::<char>::empty());
    assert(percent_encoded(one) =~= encoded_byte(b));
}

/// The AUR is searched for what was typed, byte by byte, as one part of the address behind the place
/// of searches.
pub proof fn search_is_for_what_was_typed(query: Seq<char>, other: Seq<char>)
    ensures
        url_encoded(query) == percent_encoded(encode_utf8(query)),
        search_address(query) == "https://aur.archlinux.org/rpc/v5/search/"@ + url_encoded(query),
        search_address(query) == search_address(other) ==> query == other,
{
    let front = "https://aur.archlinux.org/rpc/v5/search/"@;
    if search_address(query) == search_address(other) {
        assert(search_address(query).skip(front.len() as int) =~= url_encoded(query));
        assert(search_address(other).skip(front.len() as int) =~= url_encoded(other));
        url_encoded_is_injective(query, other);
    }
}

/// The texts of metadata are those of its fields.
pub proof fn metadata_texts_are_its_fields(info: AurPackageInfo)
    ensures
        info@.name == info.name@,
        info@.version == info.version@,
        info.description is Some ==> info@.description == Some(info.description->0@),
        info.description is None ==> info@.description is None,
        info@.package_base == info.package_base@,
        info@.depends == texts(info.depends@),
        info@.makedepends == texts(info.makedepends@),
        info@.checkdepends == texts(info.checkdepends@),
{
}

} // verus!
