//! Text helpers: substring search, lexicographic order and text that fits a C string.

use vstd::prelude::*;

verus! {

/// Whether `part` occurs in `whole` at position `at`.
pub open spec fn occurs_at(whole: Seq<char>, part: Seq<char>, at: int) -> bool {
    0 <= at <= whole.len() - part.len() && whole.subrange(at, at + part.len()) == part
}

/// Whether `part` is a contiguous part of `whole`.
pub open spec fn is_part_of(part: Seq<char>, whole: Seq<char>) -> bool {
    exists|at: int| occurs_at(whole, part, at)
}

/// Whether `a` comes before `b` in the lexicographic order of their code points.
pub open spec fn text_lt(a: Seq<char>, b: Seq<char>) -> bool
    decreases a.len(),
{
    if b.len() == 0 {
        false
    } else if a.len() == 0 {
        true
    } else if a[0] != b[0] {
        a[0] < b[0]
    } else {
        text_lt(a.drop_first(), b.drop_first())
    }
}

/// Whether `text` holds no NUL, so that it fits a C string.
pub open spec fn no_nul(text: Seq<char>) -> bool {
    forall|i: int| 0 <= i < text.len() ==> #[trigger] text[i] != '\0'
}

/// The first of `texts` that holds a NUL.
pub open spec fn first_with_nul(texts: Seq<Seq<char>>) -> Option<Seq<char>>
    decreases texts.len(),
{
    if texts.len() == 0 {
        None
    } else if !no_nul(texts[0]) {
        Some(texts[0])
    } else {
        first_with_nul(texts.drop_first())
    }
}

/// `first_with_nul` spelled out for four texts.
pub proof fn first_with_nul_of_four(a: Seq<char>, b: Seq<char>, c: Seq<char>, d: Seq<char>)
    ensures
        first_with_nul(seq![a, b, c, d]) == if !no_nul(a) {
            Some(a)
        } else if !no_nul(b) {
            Some(b)
        } else if !no_nul(c) {
            Some(c)
        } else if !no_nul(d) {
            Some(d)
        } else {
            None
        },
{
    assert(seq![a, b, c, d].drop_first() =~= seq![b, c, d]);
    assert(seq![b, c, d].drop_first() =~= seq![c, d]);
    assert(seq![c, d].drop_first() =~= seq![d]);
    assert(seq![d].drop_first() =~= Seq::<Seq<char>>::empty());
    reveal_with_fuel(first_with_nul, 5);
}

proof fn first_with_nul_skips(texts: Seq<Seq<char>>, upto: int)
    requires
        0 <= upto <= texts.len(),
        forall|i: int| 0 <= i < upto ==> no_nul(#[trigger] texts[i]),
    ensures
        first_with_nul(texts) == first_with_nul(texts.skip(upto)),
    decreases upto,
{
    if upto == 0 {
        assert(texts.skip(0) =~= texts);
    } else {
        let rest = texts.drop_first();
        assert forall|i: int| 0 <= i < upto - 1 implies no_nul(#[trigger] rest[i]) by {
            assert(no_nul(texts[i + 1]));
        }
        first_with_nul_skips(rest, upto - 1);
        assert(rest.skip(upto - 1) =~= texts.skip(upto));
        assert(no_nul(texts[0]));
    }
}

/// A further text only matters where no text before it holds a NUL.
pub proof fn first_with_nul_push(texts: Seq<Seq<char>>, last: Seq<char>)
    ensures
        first_with_nul(texts.push(last)) == match first_with_nul(texts) {
            Some(text) => Some(text),
            None => if no_nul(last) {
                None
            } else {
                Some(last)
            },
        },
    decreases texts.len(),
{
    let longer = texts.push(last);
    if texts.len() == 0 {
        assert(longer.drop_first() =~= Seq::<Seq<char>>::empty());
        assert(first_with_nul(longer.drop_first()) is None);
    } else {
        assert(longer.drop_first() =~= texts.drop_first().push(last));
        first_with_nul_push(texts.drop_first(), last);
    }
}

/// The texts behind a list of references.
pub open spec fn views_of(texts: Seq<&str>) -> Seq<Seq<char>> {
    texts.map_values(|text: &str| text@)
}

/// Copies `texts`, unless one of them holds a NUL: the first such text is then refused.
pub fn all_c_texts(texts: &Vec<&str>) -> (result: Result<Vec<CText>, NulError>)
    ensures
        match result {
            Ok(list) => {
                &&& first_with_nul(views_of(texts@)) is None
                &&& list@.len() == texts@.len()
                &&& forall|i: int|
                    0 <= i < list@.len() ==> (#[trigger] list@[i])@ == texts@[i]@ && no_nul(
                        list@[i]@,
                    )
            },
            Err(e) => first_with_nul(views_of(texts@)) == Some(e.text@),
        },
{
    let ghost views = views_of(texts@);
    let mut list: Vec<CText> = Vec::new();
    let mut i: usize = 0;
    while i < texts.len()
        invariant
            i <= texts@.len(),
            views == views_of(texts@),
            list@.len() == i,
            forall|j: int| 0 <= j < i ==> no_nul(#[trigger] views[j]),
            forall|j: int|
                0 <= j < i ==> (#[trigger] list@[j])@ == texts@[j]@ && no_nul(list@[j]@),
        decreases texts@.len() - i,
    {
        match CText::copy_of(texts[i]) {
            Ok(text) => list.push(text),
            Err(e) => {
                proof {
                    first_with_nul_skips(views, i as int);
                    assert(views.skip(i as int)[0] == texts@[i as int]@);
                }
                return Err(e);
            },
        }
        i += 1;
    }
    proof {
        first_with_nul_skips(views, views.len() as int);
    }
    Ok(list)
}

/// The code points of `text`.
pub fn chars_of(text: &str) -> (chars: Vec<char>)
    ensures
        chars@ == text@,
{
    let mut chars: Vec<char> = Vec::new();
    for c in it: text.chars()
        invariant
            chars@ == it.seq().take(it.index() as int),
            it.seq() == text@,
    {
        chars.push(c);
        assert(it.seq().take(it.index() + 1) =~= it.seq().take(it.index() as int).push(c));
    }
    assert(text@.take(text@.len() as int) =~= text@);
    chars
}

/// Whether `part` stands in `whole` at position `at`.
fn matches_at(whole: &Vec<char>, part: &Vec<char>, at: usize) -> (found: bool)
    requires
        at + part@.len() <= whole@.len(),
    ensures
        found == occurs_at(whole@, part@, at as int),
{
    let end: usize = whole.len();
    let mut i: usize = 0;
    while i < part.len()
        invariant
            end == whole@.len(),
            at + part@.len() <= end,
            i <= part@.len(),
            forall|j: int| 0 <= j < i ==> whole@[at + j] == #[trigger] part@[j],
        decreases part@.len() - i,
    {
        if whole[at + i] != part[i] {
            assert(whole@.subrange(at as int, at + part@.len())[i as int] != part@[i as int]);
            return false;
        }
        i += 1;
    }
    assert(whole@.subrange(at as int, at + part@.len()) =~= part@);
    true
}

/// Whether the two texts are equal.
pub fn same_text(a: &str, b: &str) -> (same: bool)
    ensures
        same == (a@ == b@),
{
    let left: Vec<char> = chars_of(a);
    let right: Vec<char> = chars_of(b);
    if left.len() != right.len() {
        return false;
    }
    let same: bool = matches_at(&left, &right, 0);
    assert(left@.subrange(0, left@.len() as int) =~= left@);
    same
}

/// Whether `text` begins with `prefix`.
pub fn starts_with(text: &str, prefix: &str) -> (found: bool)
    ensures
        found == prefix@.is_prefix_of(text@),
{
    let whole: Vec<char> = chars_of(text);
    let part: Vec<char> = chars_of(prefix);
    part.len() <= whole.len() && matches_at(&whole, &part, 0)
}

/// Whether `part` occurs anywhere in `whole`.
pub fn contains(whole: &str, part: &str) -> (found: bool)
    ensures
        found == is_part_of(part@, whole@),
        found <==> exists|before: Seq<char>, after: Seq<char>|
            whole@ == #[trigger] (before + part@ + after),
{
    proof {
        part_splits_whole(part@, whole@);
    }
    let text: Vec<char> = chars_of(whole);
    let needle: Vec<char> = chars_of(part);
    if needle.len() > text.len() {
        return false;
    }
    let last: usize = text.len() - needle.len();
    let mut at: usize = 0;
    while at < last
        invariant
            last == text@.len() - needle@.len(),
            at <= last,
            text@ == whole@,
            needle@ == part@,
            forall|j: int| 0 <= j < at ==> !#[trigger] occurs_at(whole@, part@, j),
        decreases last - at,
    {
        if matches_at(&text, &needle, at) {
            proof {
                part_splits_whole(part@, whole@);
            }
            return true;
        }
        at += 1;
    }
    matches_at(&text, &needle, last)
}

/// Whether `a` comes strictly before `b` in lexicographic order.
pub fn text_before(a: &str, b: &str) -> (before: bool)
    ensures
        before == text_lt(a@, b@),
{
    let left: Vec<char> = chars_of(a);
    let right: Vec<char> = chars_of(b);
    let mut i: usize = 0;
    assert(left@.skip(0) =~= left@);
    assert(right@.skip(0) =~= right@);
    while i < left.len() && i < right.len()
        invariant
            left@ == a@,
            right@ == b@,
            i <= left@.len(),
            i <= right@.len(),
            text_lt(left@, right@) == text_lt(left@.skip(i as int), right@.skip(i as int)),
        decreases left@.len() - i,
    {
        if left[i] != right[i] {
            return left[i] < right[i];
        }
        assert(left@.skip(i as int).drop_first() =~= left@.skip(i + 1));
        assert(right@.skip(i as int).drop_first() =~= right@.skip(i + 1));
        i += 1;
    }
    i < right.len()
}

/// Whether `text` holds a NUL.
pub fn has_nul(text: &str) -> (found: bool)
    ensures
        found == !no_nul(text@),
        found == text@.contains('\0'),
{
    proof {
        no_nul_means_no_nul(text@);
    }
    let chars: Vec<char> = chars_of(text);
    let mut i: usize = 0;
    while i < chars.len()
        invariant
            i <= chars@.len(),
            chars@ == text@,
            forall|j: int| 0 <= j < i ==> #[trigger] chars@[j] != '\0',
        decreases chars@.len() - i,
    {
        if chars[i] == '\0' {
            return true;
        }
        i += 1;
    }
    false
}

/// The concatenation of two texts.
pub fn joined(a: &str, b: &str) -> (text: String)
    ensures
        text@ == a@ + b@,
{
    a.to_owned().concat(b)
}

/// No text comes before itself.
pub proof fn text_lt_irreflexive(a: Seq<char>)
    ensures
        !text_lt(a, a),
    decreases a.len(),
{
    if a.len() > 0 {
        text_lt_irreflexive(a.drop_first());
    }
}

/// The order of texts is transitive.
pub proof fn text_lt_transitive(a: Seq<char>, b: Seq<char>, c: Seq<char>)
    requires
        text_lt(a, b),
        text_lt(b, c),
    ensures
        text_lt(a, c),
    decreases a.len(),
{
    if a.len() > 0 && a[0] == b[0] && b[0] == c[0] {
        text_lt_transitive(a.drop_first(), b.drop_first(), c.drop_first());
    }
}

/// Of two different texts one comes before the other.
pub proof fn text_lt_total(a: Seq<char>, b: Seq<char>)
    requires
        a != b,
    ensures
        text_lt(a, b) || text_lt(b, a),
    decreases a.len(),
{
    if a.len() > 0 && b.len() > 0 && a[0] == b[0] {
        if a.drop_first() == b.drop_first() {
            assert(a =~= seq![a[0]] + a.drop_first());
            assert(b =~= seq![b[0]] + b.drop_first());
        }
        text_lt_total(a.drop_first(), b.drop_first());
    } else if a.len() == 0 && b.len() == 0 {
        assert(a =~= b);
    }
}

/// What `{:?}` prints for a text: the text in double quotes, with what cannot be shown escaped.
pub uninterp spec fn debug_form(text: Seq<char>) -> Seq<char>;

/// Whether `text` is made of printable ASCII characters that need no escape.
pub open spec fn is_plain(text: Seq<char>) -> bool {
    forall|i: int|
        0 <= i < text.len() ==> {
            &&& ' ' <= #[trigger] text[i] <= '~'
            &&& text[i] != '"'
            &&& text[i] != '\''
            &&& text[i] != '\\'
        }
}

/// Formats `text` with `{:?}` of `std::fmt`. The result depends on the text alone, and a text of
/// printable ASCII characters without quotes and backslashes comes out unchanged between double
/// quotes. No NUL is put into a text that holds none. How other characters are escaped is left unsaid.
#[verifier::external_body]
pub(crate) fn debug_string(text: &str) -> (quoted: String)
    ensures
        quoted@ == debug_form(text@),
        no_nul(text@) ==> no_nul(quoted@),
        is_plain(text@) ==> quoted@ == seq!['"'] + text@ + seq!['"'],
{
    format!("{:?}", text)
}

/// The refusal of a text that holds a NUL.
pub struct NulError {
    pub text: String,
}

/// Text without NUL, the contents of a C string.
pub struct CText {
    text: String,
}

impl View for CText {
    type V = Seq<char>;

    closed spec fn view(&self) -> Seq<char> {
        self.text@
    }
}

impl CText {
    #[verifier::type_invariant]
    spec fn inv(&self) -> bool {
        no_nul(self.text@)
    }

    /// Takes `text` as it is, unless it holds a NUL.
    pub fn new(text: String) -> (result: Result<CText, NulError>)
        ensures
            match result {
                Ok(c) => no_nul(text@) && c@ == text@,
                Err(e) => !no_nul(text@) && e.text@ == text@,
            },
    {
        if has_nul(text.as_str()) {
            Err(NulError { text })
        } else {
            Ok(CText { text })
        }
    }

    /// Copies `text`, unless it holds a NUL.
    pub fn copy_of(text: &str) -> (result: Result<CText, NulError>)
        ensures
            match result {
                Ok(c) => no_nul(text@) && c@ == text@,
                Err(e) => !no_nul(text@) && e.text@ == text@,
            },
    {
        CText::new(text.to_owned())
    }

    /// Copies `text`, which must not hold a NUL.
    pub fn known(text: &str) -> (c: CText)
        requires
            no_nul(text@),
        ensures
            c@ == text@,
    {
        CText { text: text.to_owned() }
    }

    /// The text itself, which never holds a NUL.
    pub fn as_str(&self) -> (text: &str)
        ensures
            text@ == self@,
            no_nul(self@),
    {
        proof {
            use_type_invariant(self);
        }
        self.text.as_str()
    }

    /// Another copy of the same text.
    pub fn copy(&self) -> (other: CText)
        ensures
            other@ == self@,
            no_nul(self@),
    {
        proof {
            use_type_invariant(self);
        }
        CText { text: self.text.clone() }
    }
}

/// A text is part of another exactly if that is made of something, the text, and something more.
pub proof fn part_splits_whole(part: Seq<char>, whole: Seq<char>)
    ensures
        is_part_of(part, whole) <==> exists|before: Seq<char>, after: Seq<char>|
            whole == #[trigger] (before + part + after),
{
    if is_part_of(part, whole) {
        let at = choose|at: int| occurs_at(whole, part, at);
        let before = whole.take(at);
        let after = whole.skip(at + part.len());
        assert(whole =~= before + part + after);
    }
    if exists|before: Seq<char>, after: Seq<char>| whole == #[trigger] (before + part + after) {
        let (before, after) = choose|before: Seq<char>, after: Seq<char>|
            whole == #[trigger] (before + part + after);
        part_stands_inside(before, part, after);
    }
}

/// Whatever stands before and after it, a text is part of the whole.
pub proof fn part_stands_inside(before: Seq<char>, part: Seq<char>, after: Seq<char>)
    ensures
        is_part_of(part, before + part + after),
{
    let whole = before + part + after;
    assert(whole.subrange(before.len() as int, (before.len() + part.len()) as int) =~= part);
    assert(occurs_at(whole, part, before.len() as int));
}

/// Two texts are ordered by the code points at which they first differ; where one of them ends
/// before that, it comes first.
pub proof fn first_difference_decides(
    common: Seq<char>,
    c: char,
    d: char,
    rest_c: Seq<char>,
    rest_d: Seq<char>,
)
    requires
        c != d,
    ensures
        text_lt(common + seq![c] + rest_c, common + seq![d] + rest_d) <==> (c as int) < (d as int),
        text_lt(common, common + seq![c] + rest_c),
        !text_lt(common + seq![c] + rest_c, common),
        !text_lt(common, common),
    decreases common.len(),
{
    let left = common + seq![c] + rest_c;
    let right = common + seq![d] + rest_d;
    if common.len() > 0 {
        let tail = common.drop_first();
        first_difference_decides(tail, c, d, rest_c, rest_d);
        assert(left.drop_first() =~= tail + seq![c] + rest_c);
        assert(right.drop_first() =~= tail + seq![d] + rest_d);
        assert(left[0] == common[0] && right[0] == common[0]);
    } else {
        assert(left[0] == c && right[0] == d);
    }
}

/// Text fits a C string exactly if NUL is not one of its characters.
pub proof fn no_nul_means_no_nul(text: Seq<char>)
    ensures
        no_nul(text) <==> !text.contains('\0'),
{
    if !no_nul(text) {
        let i = choose|i: int| 0 <= i < text.len() && text[i] == '\0';
        assert(text[i] == '\0');
    }
}

/// The text that is refused is the earliest that holds a NUL, and one is refused as soon as any
/// holds a NUL.
pub proof fn earliest_nul_is_refused(texts: Seq<Seq<char>>, at: int)
    requires
        0 <= at <= texts.len(),
        forall|i: int| 0 <= i < at ==> !(#[trigger] texts[i]).contains('\0'),
        at < texts.len() ==> texts[at].contains('\0'),
    ensures
        first_with_nul(texts) == if at < texts.len() {
            Some(texts[at])
        } else {
            None
        },
{
    assert forall|i: int| 0 <= i < at implies no_nul(#[trigger] texts[i]) by {
        no_nul_means_no_nul(texts[i]);
    }
    first_with_nul_skips(texts, at);
    if at < texts.len() {
        no_nul_means_no_nul(texts[at]);
        assert(texts.skip(at)[0] == texts[at]);
    } else {
        assert(texts.skip(at).len() == 0);
    }
}

/// The views of a list of references are the views of its texts, one by one.
pub proof fn views_one_by_one(texts: Seq<&str>)
    ensures
        views_of(texts).len() == texts.len(),
        forall|i: int| 0 <= i < texts.len() ==> #[trigger] views_of(texts)[i] == texts[i]@,
{
}

} // verus!
