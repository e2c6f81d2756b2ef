//! The clips as they are shown, opened, carried out and brought in.

use crate::hashing::{hash_column, stored_hash};
use crate::imaging::{
    base64_bytes, base64_decode, base64_encode, base64_reads_back, base64_text, decode_image,
    image_pixels, opt_bytes,
};
use crate::numbers::{dec, dec_int, decimal, decimal_i64};
use crate::ranking::{
    by_rank, in_rank_order, not_below, ordered_stays, ranked, ranking_orders, Ranked,
};
use crate::store::clip_hash;
use crate::text::{
    base_name, base_name_of, blank, chars_of, copy_text, find_from, find_last, find_text, in_order,
    is_white_space, last_at, lemma_text_le_antisymmetric, lemma_text_le_total,
    lemma_text_le_transitive, lemma_trim_blank, lemma_trim_twice, lines, lines_of, lower, lowercase, matches_at,
    opt_text, same, slice_of, stands_at, string_of, string_of_range, text_le, texts, trim,
    trim_chars, white_space,
};
use vstd::prelude::*;
use vstd::string::*;
use vstd::utf8::*;

verus! {

// ---------- the kind of a clip ----------

/// The endings of video files.
pub open spec fn video_exts() -> Seq<Seq<char>> {
    seq![
        "mp4"@, "mkv"@, "avi"@, "mov"@, "wmv"@, "flv"@, "webm"@, "m4v"@, "mpg"@, "mpeg"@, "ts"@,
        "m2ts"@, "rmvb"@, "rm"@, "3gp"@, "f4v"@, "vob"@,
    ]
}

/// The endings of documents.
pub open spec fn office_exts() -> Seq<Seq<char>> {
    seq![
        "txt"@, "doc"@, "docx"@, "xls"@, "xlsx"@, "ppt"@, "pptx"@, "csv"@, "pdf"@, "md"@, "rtf"@,
        "wps"@, "et"@, "dps"@, "odt"@, "ods"@, "odp"@,
    ]
}

/// The views of several texts.
pub open spec fn str_views(v: Seq<&'static str>) -> Seq<Seq<char>> {
    v.map_values(|s: &'static str| s@)
}

fn one_of(s: &str, list: &Vec<&'static str>) -> (r: bool)
    ensures
        r == str_views(list@).contains(s@),
{
    let ghost all = str_views(list@);
    let mut i: usize = 0;
    while i < list.len()
        invariant
            i <= list@.len(),
            all == str_views(list@),
            forall|j: int| 0 <= j < i ==> #[trigger] all[j] != s@,
        decreases list@.len() - i,
    {
        if same(list[i], s) {
            assert(all[i as int] == s@);
            return true;
        }
        i = i + 1;
    }
    false
}

/// The first line that is not blank; none where all are.
pub open spec fn first_filled(ls: Seq<Seq<char>>) -> Option<Seq<char>>
    decreases ls.len(),
{
    if ls.len() == 0 {
        None
    } else if !blank(ls[0]) {
        Some(ls[0])
    } else {
        first_filled(ls.skip(1))
    }
}

/// The lines that are not blank.
pub open spec fn filled(ls: Seq<Seq<char>>) -> Seq<Seq<char>>
    decreases ls.len(),
{
    if ls.len() == 0 {
        seq![]
    } else if !blank(ls.last()) {
        filled(ls.drop_last()).push(ls.last())
    } else {
        filled(ls.drop_last())
    }
}

fn is_blank(v: &Vec<char>) -> (r: bool)
    ensures
        r == blank(v@),
{
    proof {
        lemma_trim_blank(v@);
    }
    trim_chars(v).len() == 0
}

fn filled_lines(content: &str) -> (r: Vec<Vec<char>>)
    ensures
        texts(r@) == filled(lines(content@)),
{
    let ls = lines_of(&chars_of(content));
    let ghost all = texts(ls@);
    let mut out: Vec<Vec<char>> = Vec::new();
    let mut i: usize = 0;
    assert(texts(out@) =~= filled(all.take(0)));
    while i < ls.len()
        invariant
            i <= ls@.len(),
            all == texts(ls@),
            texts(out@) == filled(all.take(i as int)),
        decreases ls@.len() - i,
    {
        assert(all.take(i + 1).drop_last() =~= all.take(i as int));
        assert(all.take(i + 1).last() == ls@[i as int]@);
        if !is_blank(&ls[i]) {
            let ghost before = out@;
            let line = slice_of(&ls[i], 0, ls[i].len());
            assert(line@ =~= ls@[i as int]@);
            out.push(line);
            assert(texts(out@) =~= texts(before).push(ls@[i as int]@));
        }
        i = i + 1;
    }
    assert(all.take(i as int) =~= all);
    out
}

proof fn lemma_first_filled(ls: Seq<Seq<char>>)
    ensures
        first_filled(ls) == (if filled(ls).len() > 0 {
            Some(filled(ls)[0])
        } else {
            None
        }),
    decreases ls.len(),
{
    if ls.len() == 1 {
        assert(ls.skip(1) =~= Seq::<Seq<char>>::empty());
        assert(ls.drop_last() =~= Seq::<Seq<char>>::empty());
        assert(filled(ls.drop_last()) == Seq::<Seq<char>>::empty());
        assert(first_filled(ls.skip(1)) is None);
    } else if ls.len() > 1 {
        lemma_first_filled(ls.drop_last());
        lemma_first_filled_last(ls);
    }
}

proof fn lemma_first_filled_last(ls: Seq<Seq<char>>)
    requires
        ls.len() > 0,
    ensures
        first_filled(ls) == (match first_filled(ls.drop_last()) {
            Some(l) => Some(l),
            None => if !blank(ls.last()) {
                Some(ls.last())
            } else {
                None
            },
        }),
    decreases ls.len(),
{
    if ls.len() == 1 {
        assert(ls.skip(1) =~= Seq::<Seq<char>>::empty());
        assert(ls.drop_last() =~= Seq::<Seq<char>>::empty());
        assert(first_filled(ls.skip(1)) is None);
    } else {
        assert(ls.skip(1).drop_last() =~= ls.drop_last().skip(1));
        assert(ls.skip(1).last() == ls.last());
        lemma_first_filled_last(ls.skip(1));
    }
}

/// The ending of a path, in small letters; empty where it has none.
pub open spec fn path_ext(path: Seq<char>) -> Seq<char> {
    let name = base_name(path);
    let dot = last_at(name, '.');
    if dot >= 0 {
        lowercase(name.subrange(dot + 1, name.len() as int))
    } else {
        seq![]
    }
}

/// What a text holds, or nothing.
pub open spec fn or_empty(t: Option<Seq<char>>) -> Seq<char> {
    match t {
        Some(s) => s,
        None => seq![],
    }
}

/// The category of a clip.
pub open spec fn category(kind: Seq<char>, content: Option<Seq<char>>) -> Seq<char> {
    if kind == "text"@ {
        "text"@
    } else if kind == "image"@ {
        "image"@
    } else if kind == "file"@ {
        let first = or_empty(first_filled(lines(or_empty(content))));
        if video_exts().contains(path_ext(first)) {
            "video"@
        } else if office_exts().contains(path_ext(first)) {
            "office"@
        } else {
            "file"@
        }
    } else {
        "file"@
    }
}

fn ext_of(path: &Vec<char>) -> (r: String)
    ensures
        r@ == path_ext(path@),
{
    let name = base_name_of(path);
    let n: usize = name.len();
    match find_last(&name, '.') {
        Some(dot) => lower(string_of(&slice_of(&name, dot + 1, n)).as_str()),
        None => {
            let e = String::new();
            assert(e@ =~= seq![]);
            e
        },
    }
}

fn text_or_empty(t: &Option<String>) -> (r: String)
    ensures
        r@ == or_empty(opt_text(*t)),
{
    match t {
        Some(s) => s.clone(),
        None => {
            let e = String::new();
            assert(e@ =~= seq![]);
            e
        },
    }
}

/// The category of a clip: files are told apart by the ending of the first path.
pub fn category_of(kind: &str, content: &Option<String>) -> (r: &'static str)
    ensures
        r@ == category(kind@, opt_text(*content)),
{
    if same(kind, "text") {
        return "text";
    }
    if same(kind, "image") {
        return "image";
    }
    if !same(kind, "file") {
        return "file";
    }
    let text = text_or_empty(content);
    let paths = filled_lines(text.as_str());
    let ghost all = texts(paths@);
    proof {
        lemma_first_filled(lines(text@));
    }
    let empty: Vec<char> = Vec::new();
    assert(empty@ =~= seq![]);
    let ext = if paths.len() > 0 {
        assert(all[0] == paths@[0]@);
        ext_of(&paths[0])
    } else {
        ext_of(&empty)
    };
    let video: Vec<&'static str> = vec![
        "mp4", "mkv", "avi", "mov", "wmv", "flv", "webm", "m4v", "mpg", "mpeg", "ts", "m2ts",
        "rmvb", "rm", "3gp", "f4v", "vob",
    ];
    assert(str_views(video@) =~= video_exts());
    let office: Vec<&'static str> = vec![
        "txt", "doc", "docx", "xls", "xlsx", "ppt", "pptx", "csv", "pdf", "md", "rtf", "wps", "et",
        "dps", "odt", "ods", "odp",
    ];
    assert(str_views(office@) =~= office_exts());
    if one_of(ext.as_str(), &video) {
        "video"
    } else if one_of(ext.as_str(), &office) {
        "office"
    } else {
        "file"
    }
}

// ---------- addresses in a text ----------

/// Where an address in a text ends at the latest.
pub open spec fn ends_url(c: char) -> bool {
    white_space(c) || c == '"' || c == '\'' || c == '<' || c == '>' || c == ')' || c == ']' || c
        == '）' || c == '】'
}

/// The characters that are taken off the end of an address.
pub open spec fn trails_url(c: char) -> bool {
    c == '.' || c == ',' || c == ';' || c == '!' || c == '?' || c == '。' || c == '，' || c == '；'
}

/// The first place at or after `from` where an address ends.
pub open spec fn url_end(s: Seq<char>, from: int) -> int
    decreases s.len() - from,
{
    if from >= s.len() {
        s.len() as int
    } else if ends_url(s[from]) {
        from
    } else {
        url_end(s, from + 1)
    }
}

/// A text without the characters that are taken off the end of an address.
pub open spec fn without_trail(s: Seq<char>) -> Seq<char>
    decreases s.len(),
{
    if s.len() > 0 && trails_url(s.last()) {
        without_trail(s.drop_last())
    } else {
        s
    }
}

/// Where the first address in a text starts; -1 where there is none.
pub open spec fn url_start(s: Seq<char>) -> int {
    let secure = find_from(s, 0, "https://"@);
    let plain = find_from(s, 0, "http://"@);
    if secure >= 0 && (plain < 0 || secure <= plain) {
        secure
    } else {
        plain
    }
}

/// The first address in a text: more than the protocol must be there.
pub open spec fn url_in(s: Seq<char>) -> Option<Seq<char>> {
    let from = url_start(s);
    if from < 0 {
        None
    } else {
        let u = without_trail(s.subrange(from, url_end(s, from)));
        if encode_utf8(u).len() > 8 {
            Some(u)
        } else {
            None
        }
    }
}

fn is_url_end(c: char) -> (r: bool)
    ensures
        r == ends_url(c),
{
    is_white_space(c) || c == '"' || c == '\'' || c == '<' || c == '>' || c == ')' || c == ']' || c
        == '）' || c == '】'
}

fn is_url_trail(c: char) -> (r: bool)
    ensures
        r == trails_url(c),
{
    c == '.' || c == ',' || c == ';' || c == '!' || c == '?' || c == '。' || c == '，' || c == '；'
}

/// The first address in a text.
pub fn first_url(text: &str) -> (r: Option<String>)
    ensures
        opt_text(r) == url_in(text@),
{
    let v = chars_of(text);
    let secure = find_text(&v, &chars_of("https://"));
    let plain = find_text(&v, &chars_of("http://"));
    let from: usize = match (secure, plain) {
        (Some(a), Some(b)) => if a <= b {
            a
        } else {
            b
        },
        (Some(a), None) => a,
        (None, Some(b)) => b,
        (None, None) => {
            return None;
        },
    };
    assert(from == url_start(text@));
    let mut end: usize = from;
    while end < v.len() && !is_url_end(v[end])
        invariant
            from <= end <= v@.len(),
            url_end(v@, from as int) == url_end(v@, end as int),
        decreases v@.len() - end,
    {
        end = end + 1;
    }
    let ghost whole = v@.subrange(from as int, url_end(v@, from as int));
    let mut to: usize = end;
    assert(v@.subrange(from as int, to as int) =~= whole);
    while to > from && is_url_trail(v[to - 1])
        invariant
            from <= to <= v@.len(),
            without_trail(whole) == without_trail(v@.subrange(from as int, to as int)),
        decreases to,
    {
        assert(v@.subrange(from as int, to as int).drop_last() =~= v@.subrange(from as int, to - 1));
        to = to - 1;
    }
    let url = string_of_range(&v, from, to);
    if url.as_str().as_bytes().len() > 8 {
        Some(url)
    } else {
        None
    }
}

proof fn lemma_url_end(s: Seq<char>, from: int)
    requires
        0 <= from <= s.len(),
    ensures
        from <= url_end(s, from) <= s.len(),
        forall|i: int| from <= i < url_end(s, from) ==> !ends_url(#[trigger] s[i]),
    decreases s.len() - from,
{
    if from < s.len() && !ends_url(s[from]) {
        lemma_url_end(s, from + 1);
    }
}

proof fn lemma_without_trail(s: Seq<char>)
    ensures
        without_trail(s).len() <= s.len(),
        without_trail(s) == s.take(without_trail(s).len() as int),
        forall|i: int| without_trail(s).len() <= i < s.len() ==> trails_url(#[trigger] s[i]),
    decreases s.len(),
{
    if s.len() > 0 && trails_url(s.last()) {
        lemma_without_trail(s.drop_last());
        let n = without_trail(s).len() as int;
        assert(s.drop_last().take(n) =~= s.take(n));
        assert forall|i: int| n <= i < s.len() implies trails_url(#[trigger] s[i]) by {
            if i < s.len() - 1 {
                assert(s.drop_last()[i] == s[i]);
            }
        }
    } else {
        assert(s.take(s.len() as int) =~= s);
    }
}

proof fn lemma_found(s: Seq<char>, from: int, pat: Seq<char>)
    requires
        0 <= from,
    ensures
        find_from(s, from, pat) >= 0 ==> matches_at(s, find_from(s, from, pat), pat),
    decreases s.len() + 1 - from,
{
    if from <= s.len() && !matches_at(s, from, pat) {
        lemma_found(s, from + 1, pat);
    }
}

/// An address that is found stands in the text, starts with its protocol, and
/// holds no white space, quotation mark or closing bracket.
pub proof fn found_url_is_clean(s: Seq<char>)
    requires
        url_in(s) is Some,
    ensures
        ({
            let u = url_in(s)->0;
            &&& matches_at(s, url_start(s), u)
            &&& matches_at(u, 0, "http"@)
            &&& forall|i: int| 0 <= i < u.len() ==> !ends_url(#[trigger] u[i])
            &&& !trails_url(u.last())
        }),
{
    reveal_strlit("https://");
    reveal_strlit("http://");
    reveal_strlit("http");
    lemma_found(s, 0, "https://"@);
    lemma_found(s, 0, "http://"@);
    let from = url_start(s);
    let n: int = if matches_at(s, from, "https://"@) {
        8
    } else {
        7
    };
    let pat = if n == 8 {
        "https://"@
    } else {
        "http://"@
    };
    assert(matches_at(s, from, pat));
    assert forall|i: int| 0 <= i < n implies #[trigger] s[from + i] == pat[i] by {
        assert(s.subrange(from, from + n)[i] == pat[i]);
    }
    lemma_url_end(s, from);
    let end = url_end(s, from);
    assert(end >= from + n) by {
        if end < from + n {
            assert(s[end] == pat[end - from]);
            lemma_url_stops(s, from);
        }
    }
    let whole = s.subrange(from, end);
    lemma_without_trail(whole);
    let u = without_trail(whole);
    assert(whole[n - 1] == s[from + (n - 1)]);
    assert(u.len() >= n);
    assert(u =~= s.subrange(from, from + u.len()));
    assert(u.subrange(0, 4) =~= "http"@) by {
        assert(s[from + 0] == pat[0] && s[from + 1] == pat[1] && s[from + 2] == pat[2] && s[from + 3]
            == pat[3]);
    }
    assert forall|i: int| 0 <= i < u.len() implies !ends_url(#[trigger] u[i]) by {
        assert(u[i] == s[from + i]);
    }
    lemma_trail_gone(whole);
}

proof fn lemma_trail_gone(s: Seq<char>)
    ensures
        without_trail(s).len() > 0 ==> !trails_url(without_trail(s).last()),
    decreases s.len(),
{
    if s.len() > 0 && trails_url(s.last()) {
        lemma_trail_gone(s.drop_last());
    }
}

proof fn lemma_url_stops(s: Seq<char>, from: int)
    requires
        0 <= from <= s.len(),
    ensures
        url_end(s, from) < s.len() ==> ends_url(s[url_end(s, from)]),
    decreases s.len() - from,
{
    if from < s.len() && !ends_url(s[from]) {
        lemma_url_stops(s, from + 1);
    }
}

// ---------- the list ----------

/// How a clip is shown in few words: a picture by its size, files by the name of
/// the first and how many there are, a text by its beginning.
pub open spec fn preview(
    kind: Seq<char>,
    content: Option<Seq<char>>,
    w: Option<u32>,
    h: Option<u32>,
) -> Seq<char> {
    if kind == "image"@ {
        "[图片 "@ + dec(
            match w {
                Some(n) => n as nat,
                None => 0,
            },
        ) + "x"@ + dec(
            match h {
                Some(n) => n as nat,
                None => 0,
            },
        ) + "]"@
    } else if kind == "file"@ {
        let paths = filled(lines(or_empty(content)));
        let first = if paths.len() > 0 {
            base_name(paths[0])
        } else {
            "文件"@
        };
        if paths.len() > 1 {
            "📄 "@ + first + " 等 "@ + dec(paths.len()) + " 个文件"@
        } else {
            "📄 "@ + first
        }
    } else {
        let t = or_empty(content);
        if t.len() > 300 {
            t.take(300)
        } else {
            t
        }
    }
}

fn preview_of(kind: &str, content: &Option<String>, w: Option<u32>, h: Option<u32>) -> (r: String)
    ensures
        r@ == preview(kind@, opt_text(*content), w, h),
{
    if same(kind, "image") {
        let wide: u32 = match w {
            Some(n) => n,
            None => 0,
        };
        let high: u32 = match h {
            Some(n) => n,
            None => 0,
        };
        let mut t = "[图片 ".to_string();
        t.append(decimal(wide as u64).as_str());
        t.append("x");
        t.append(decimal(high as u64).as_str());
        t.append("]");
        t
    } else if same(kind, "file") {
        let text = text_or_empty(content);
        let paths = filled_lines(text.as_str());
        let ghost all = texts(paths@);
        let first = if paths.len() > 0 {
            assert(all[0] == paths@[0]@);
            string_of(&base_name_of(&paths[0]))
        } else {
            "文件".to_string()
        };
        let mut t = "📄 ".to_string();
        t.append(first.as_str());
        if paths.len() > 1 {
            t.append(" 等 ");
            t.append(decimal(paths.len() as u64).as_str());
            t.append(" 个文件");
        }
        t
    } else {
        let text = text_or_empty(content);
        let v = chars_of(text.as_str());
        if v.len() > 300 {
            let t = string_of_range(&v, 0, 300);
            assert(t@ =~= text@.take(300));
            t
        } else {
            text
        }
    }
}

/// A clip in the list. Pictures are fetched one by one when they come into sight.
pub struct Clip {
    pub id: i64,
    pub kind: String,
    pub category: String,
    pub preview: String,
    pub image_b64: Option<String>,
    pub url: Option<String>,
    pub pinned: bool,
    /// In seconds.
    pub created_at: i64,
}

/// A stored clip as it stands in the list.
pub fn clip_of_row(
    id: i64,
    kind: String,
    content: Option<String>,
    w: Option<u32>,
    h: Option<u32>,
    pinned: i64,
    created_at: i64,
) -> (r: Clip)
    ensures
        r.id == id,
        r.kind@ == kind@,
        r.category@ == category(kind@, opt_text(content)),
        r.preview@ == preview(kind@, opt_text(content), w, h),
        r.image_b64 is None,
        opt_text(r.url) == (match opt_text(content) {
            Some(t) => url_in(t),
            None => None,
        }),
        r.pinned == (pinned != 0),
        r.created_at == created_at,
{
    let url = match &content {
        Some(t) => first_url(t.as_str()),
        None => None,
    };
    Clip {
        id: id,
        category: category_of(kind.as_str(), &content).to_string(),
        preview: preview_of(kind.as_str(), &content, w, h),
        kind: kind,
        image_b64: None,
        url: url,
        pinned: pinned != 0,
        created_at: created_at,
    }
}

/// A row of the list, as it was looked up.
pub struct ListRow {
    pub id: i64,
    pub kind: String,
    pub content: Option<String>,
    pub width: Option<u32>,
    pub height: Option<u32>,
    pub pinned: i64,
    /// In seconds.
    pub created_at: i64,
}

/// Whether a clip in the list is that of a row. It carries no picture.
pub open spec fn shows(c: Clip, row: ListRow) -> bool {
    &&& c.id == row.id
    &&& c.kind@ == row.kind@
    &&& c.category@ == category(row.kind@, opt_text(row.content))
    &&& c.preview@ == preview(row.kind@, opt_text(row.content), row.width, row.height)
    &&& c.image_b64 is None
    &&& opt_text(c.url) == (match opt_text(row.content) {
        Some(t) => url_in(t),
        None => None,
    })
    &&& c.pinned == (row.pinned != 0)
    &&& c.created_at == row.created_at
}

/// The ranks of the rows: by whether they are pinned, and then by their times.
pub open spec fn list_ranks(rows: Seq<ListRow>) -> Seq<Ranked> {
    Seq::new(
        rows.len(),
        |i: int| Ranked { high: rows[i].pinned, low: rows[i].created_at, at: i as usize },
    )
}

/// The places of the rows in the order of the list.
pub open spec fn list_order(rows: Seq<ListRow>) -> Seq<Ranked> {
    ranked(list_ranks(rows))
}

/// The most clips in the list.
pub const LIST_LIMIT: usize = 500;

/// The list of clips from the rows that were looked up: pinned ones first, and newer
/// ones before older ones, up to the limit.
pub fn list_rows(rows: &Vec<ListRow>) -> (r: Vec<Clip>)
    ensures
        rows@.len() <= 500 ==> r@.len() == rows@.len(),
        rows@.len() > 500 ==> r@.len() == 500,
        r@.len() == (if rows@.len() > LIST_LIMIT {
            LIST_LIMIT as int
        } else {
            rows@.len() as int
        }),
        forall|i: int|
            0 <= i < r@.len() ==> list_order(rows@)[i].at < rows@.len() && shows(
                #[trigger] r@[i],
                rows@[list_order(rows@)[i].at as int],
            ),
{
    let mut ranks: Vec<Ranked> = Vec::new();
    let mut i: usize = 0;
    while i < rows.len()
        invariant
            i <= rows@.len(),
            ranks@ == list_ranks(rows@).take(i as int),
        decreases rows@.len() - i,
    {
        ranks.push(Ranked { high: rows[i].pinned, low: rows[i].created_at, at: i });
        assert(ranks@ =~= list_ranks(rows@).take(i + 1));
        i = i + 1;
    }
    assert(ranks@ =~= list_ranks(rows@));
    let order = by_rank(&ranks);
    proof {
        ranking_orders(list_ranks(rows@));
        lemma_list_places(rows@);
    }
    let mut out: Vec<Clip> = Vec::new();
    let mut j: usize = 0;
    while j < order.len() && j < LIST_LIMIT
        invariant
            j <= order@.len(),
            j <= LIST_LIMIT,
            order@ == list_order(rows@),
            order@.len() == rows@.len(),
            out@.len() == j,
            forall|k: int| 0 <= k < order@.len() ==> (#[trigger] order@[k]).at < rows@.len(),
            forall|k: int|
                0 <= k < j ==> shows(#[trigger] out@[k], rows@[order@[k].at as int]),
        decreases order@.len() - j,
    {
        assert(order@[j as int].at < rows@.len());
        let row = &rows[order[j].at];
        out.push(
            clip_of_row(
                row.id,
                row.kind.clone(),
                copy_text(&row.content),
                row.width,
                row.height,
                row.pinned,
                row.created_at,
            ),
        );
        j = j + 1;
    }
    out
}

proof fn lemma_list_places(rows: Seq<ListRow>)
    requires
        rows.len() <= usize::MAX,
    ensures
        list_order(rows).len() == rows.len(),
        forall|k: int|
            0 <= k < rows.len() ==> (#[trigger] list_order(rows)[k]).at < rows.len() && list_ranks(
                rows,
            )[list_order(rows)[k].at as int] == list_order(rows)[k],
{
    let s = list_ranks(rows);
    let o = list_order(rows);
    ranking_orders(s);
    assert forall|k: int| 0 <= k < rows.len() implies (#[trigger] o[k]).at < rows.len()
        && s[o[k].at as int] == o[k] by {
        assert(o.contains(o[k]));
        let a = choose|a: int| 0 <= a < s.len() && s[a] == o[k];
        assert(a as usize == a);
    }
}

/// The list has at most so many clips, the pinned ones first, and each group by time,
/// the newest first; and a row that is not in it does not rank above one that is.
pub proof fn list_is_in_order(rows: Seq<ListRow>, list: Seq<Clip>)
    requires
        rows.len() <= usize::MAX,
        forall|i: int| 0 <= i < rows.len() ==> 0 <= (#[trigger] rows[i]).pinned <= 1,
        list.len() == (if rows.len() > LIST_LIMIT {
            LIST_LIMIT as int
        } else {
            rows.len() as int
        }),
        forall|i: int|
            0 <= i < list.len() ==> shows(
                #[trigger] list[i],
                rows[list_order(rows)[i].at as int],
            ),
    ensures
        list.len() <= LIST_LIMIT,
        forall|i: int, j: int|
            0 <= i < j < list.len() ==> {
                ||| (#[trigger] list[i]).pinned && !(#[trigger] list[j]).pinned
                ||| list[i].pinned == list[j].pinned && list[i].created_at >= list[j].created_at
            },
        forall|i: int| 0 <= i < list.len() ==> (#[trigger] list[i]).image_b64 is None,
        forall|i: int, j: int|
            #![trigger list[i], list_order(rows)[j]]
            0 <= i < list.len() <= j < rows.len() ==> {
                let x = rows[list_order(rows)[j].at as int];
                ||| list[i].pinned && x.pinned == 0
                ||| list[i].pinned == (x.pinned != 0) && list[i].created_at >= x.created_at
            },
{
    let s = list_ranks(rows);
    let o = list_order(rows);
    ranking_orders(s);
    lemma_list_places(rows);
    assert forall|i: int, j: int| 0 <= i < j < list.len() implies {
        ||| (#[trigger] list[i]).pinned && !(#[trigger] list[j]).pinned
        ||| list[i].pinned == list[j].pinned && list[i].created_at >= list[j].created_at
    } by {
        assert(not_below(o[i], o[j]));
    }
    assert forall|i: int, j: int|
        #![trigger list[i], list_order(rows)[j]]
        0 <= i < list.len() <= j < rows.len() implies {
        let x = rows[list_order(rows)[j].at as int];
        ||| list[i].pinned && x.pinned == 0
        ||| list[i].pinned == (x.pinned != 0) && list[i].created_at >= x.created_at
    } by {
        assert(not_below(o[i], o[j]));
    }
}

/// Rows that are looked up in the order of the list are listed in that order.
pub proof fn rows_in_order_stay(rows: Seq<ListRow>)
    requires
        in_rank_order(list_ranks(rows)),
    ensures
        list_order(rows) == list_ranks(rows),
{
    ordered_stays(list_ranks(rows));
}

/// The clips that hold a text.
pub const SEARCH_CLIPS: &'static str =
    "SELECT id, kind, content, width, height, pinned, created_at FROM clips WHERE content LIKE ?1 ORDER BY pinned DESC, created_at DESC LIMIT 500";

/// All clips.
pub const LIST_CLIPS: &'static str =
    "SELECT id, kind, content, width, height, pinned, created_at FROM clips ORDER BY pinned DESC, created_at DESC LIMIT 500";

/// The pattern that the clips of the list have to match; none where no word is given.
pub open spec fn search_pattern(keyword: Option<Seq<char>>) -> Option<Seq<char>> {
    match keyword {
        Some(k) => if blank(k) {
            None
        } else {
            Some("%"@ + trim(k) + "%"@)
        },
        None => None,
    }
}

/// The statement that looks up the list, and the pattern that it takes: all clips
/// where no word is given.
pub fn list_clips(keyword: &Option<String>) -> (r: (&'static str, Option<String>))
    ensures
        opt_text(r.1) == search_pattern(opt_text(*keyword)),
        r.0 == (if r.1 is Some {
            SEARCH_CLIPS
        } else {
            LIST_CLIPS
        }),
{
    match keyword {
        Some(k) => {
            let t = trim_chars(&chars_of(k.as_str()));
            proof {
                lemma_trim_blank(k@);
            }
            if t.len() > 0 {
                let mut p = "%".to_string();
                p.append(string_of(&t).as_str());
                p.append("%");
                return (SEARCH_CLIPS, Some(p));
            }
        },
        None => {},
    }
    (LIST_CLIPS, None)
}

/// White space around a word that is looked for means nothing, and a word of white
/// space alone is none.
pub proof fn white_space_is_not_looked_for(k: Seq<char>)
    ensures
        blank(k) ==> search_pattern(Some(k)) == search_pattern(None),
        search_pattern(Some(trim(k))) == search_pattern(Some(k)),
{
    lemma_trim_twice(k);
    lemma_trim_blank(k);
    lemma_trim_blank(trim(k));
}

/// The picture of a clip as text.
pub fn get_clip_image(image: &Option<Vec<u8>>) -> (r: Option<String>)
    requires
        image matches Some(b) ==> b@.len() <= isize::MAX / 2,
    ensures
        opt_text(r) == (match image {
            Some(b) => Some(base64_text(b@)),
            None => None,
        }),
{
    match image {
        Some(b) => Some(base64_encode(b.as_slice())),
        None => None,
    }
}

// ---------- using a clip ----------

/// What goes into the clipboard.
pub enum Payload {
    /// Pixels, width and height.
    Image(Vec<u8>, u32, u32),
    Text(String),
}

/// What goes into the clipboard for a clip, or what the user is told.
pub open spec fn payload_is(
    r: Result<Payload, String>,
    kind: Seq<char>,
    content: Option<Seq<char>>,
    image: Option<Seq<u8>>,
) -> bool {
    if kind == "image"@ {
        match image {
            None => r matches Err(e) && e@ == "empty image"@,
            Some(file) => match image_pixels(file) {
                Ok((px, w, h)) => r matches Ok(Payload::Image(a, b, c)) && a@ == px && b == w && c
                    == h,
                Err(t) => r matches Err(e) && e@ == t,
            },
        }
    } else {
        r matches Ok(Payload::Text(t)) && t@ == or_empty(content)
    }
}

/// What goes into the clipboard for a clip: the pixels of a picture, or else the text.
pub fn set_clipboard_by_id(
    kind: &str,
    content: &Option<String>,
    image: &Option<Vec<u8>>,
) -> (r: Result<Payload, String>)
    ensures
        payload_is(r, kind@, opt_text(*content), opt_bytes(*image)),
{
    if same(kind, "image") {
        match image {
            None => Err("empty image".to_string()),
            Some(file) => match decode_image(file.as_slice()) {
                Ok((px, w, h)) => Ok(Payload::Image(px, w, h)),
                Err(e) => Err(e),
            },
        }
    } else {
        Ok(Payload::Text(text_or_empty(content)))
    }
}

/// How a clip is opened with the system.
pub enum OpenPlan {
    /// Under this name these bytes are written to a file, which is opened.
    Write(String, Vec<u8>),
    /// The file of this path is opened.
    Path(String),
}

/// The name of the file for a clip.
pub open spec fn file_name(id: i64, ending: Seq<char>) -> Seq<char> {
    "clip_"@ + dec_int(id as int) + ending
}

/// How a clip is opened, or what the user is told.
pub open spec fn plan_is(
    r: Result<OpenPlan, String>,
    id: i64,
    kind: Seq<char>,
    content: Option<Seq<char>>,
    image: Option<Seq<u8>>,
) -> bool {
    if kind == "image"@ {
        match image {
            None => r matches Err(e) && e@ == "图片数据为空"@,
            Some(b) => r matches Ok(OpenPlan::Write(n, d)) && n@ == file_name(id, ".png"@) && d@ == b,
        }
    } else if kind == "file"@ {
        match first_filled(lines(or_empty(content))) {
            None => r matches Err(e) && e@ == "文件路径为空"@,
            Some(l) => r matches Ok(OpenPlan::Path(p)) && p@ == l,
        }
    } else {
        r matches Ok(OpenPlan::Write(n, d)) && n@ == file_name(id, ".txt"@) && d@ == encode_utf8(
            or_empty(content),
        )
    }
}

fn name_of(id: i64, ending: &str) -> (r: String)
    ensures
        r@ == file_name(id, ending@),
{
    let mut t = "clip_".to_string();
    t.append(decimal_i64(id).as_str());
    t.append(ending);
    t
}

/// How a clip is opened with the system: a picture and a text as a new file, a
/// file where it lies.
pub fn open_clip_with_system(
    id: i64,
    kind: &str,
    content: &Option<String>,
    image: Option<Vec<u8>>,
) -> (r: Result<OpenPlan, String>)
    ensures
        plan_is(r, id, kind@, opt_text(*content), opt_bytes(image)),
{
    if same(kind, "image") {
        match image {
            None => Err("图片数据为空".to_string()),
            Some(b) => Ok(OpenPlan::Write(name_of(id, ".png"), b)),
        }
    } else if same(kind, "file") {
        let text = text_or_empty(content);
        let paths = filled_lines(text.as_str());
        let ghost all = texts(paths@);
        proof {
            lemma_first_filled(lines(text@));
        }
        if paths.len() == 0 {
            return Err("文件路径为空".to_string());
        }
        assert(all[0] == paths@[0]@);
        Ok(OpenPlan::Path(string_of(&paths[0])))
    } else {
        let text = text_or_empty(content);
        Ok(OpenPlan::Write(name_of(id, ".txt"), text.as_str().as_bytes_vec()))
    }
}

/// What the user is told of a file that is not there.
pub fn file_missing(path: &str) -> (r: String)
    ensures
        r@ == "文件不存在: "@ + path@,
{
    let mut t = "文件不存在: ".to_string();
    t.append(path);
    t
}

// ---------- carrying out and bringing in ----------

/// A clip in a file of clips.
pub struct ExportClip {
    pub kind: String,
    pub content: Option<String>,
    pub image_b64: Option<String>,
    pub width: Option<u32>,
    pub height: Option<u32>,
    pub pinned: bool,
    /// In seconds.
    pub created_at: i64,
}

/// The view of a clip in a file of clips.
#[verifier::ext_equal]
pub struct ExportView {
    pub kind: Seq<char>,
    pub content: Option<Seq<char>>,
    pub image_b64: Option<Seq<char>>,
    pub width: Option<u32>,
    pub height: Option<u32>,
    pub pinned: bool,
    pub created_at: i64,
}

impl View for ExportClip {
    type V = ExportView;

    open spec fn view(&self) -> ExportView {
        ExportView {
            kind: self.kind@,
            content: opt_text(self.content),
            image_b64: opt_text(self.image_b64),
            width: self.width,
            height: self.height,
            pinned: self.pinned,
            created_at: self.created_at,
        }
    }
}

/// The clips in the order of their times, for a file of clips.
pub const EXPORT_CLIPS: &'static str =
    "SELECT kind, content, image, width, height, pinned, created_at FROM clips ORDER BY created_at";

/// Whether a hash is known.
pub const HASH_KNOWN: &'static str = "SELECT 1 FROM clips WHERE hash = ?1 LIMIT 1";

/// Stores a clip from a file of clips.
pub const INSERT_IMPORT: &'static str =
    "INSERT INTO clips(kind, content, image, width, height, pinned, hash, created_at) VALUES(?1, ?2, ?3, ?4, ?5, ?6, ?7, ?8)";

/// What a stored clip holds.
#[verifier::ext_equal]
pub struct ClipView {
    pub kind: Seq<char>,
    pub content: Option<Seq<char>>,
    pub image: Option<Seq<u8>>,
    pub width: Option<u32>,
    pub height: Option<u32>,
    pub pinned: i64,
    pub created_at: i64,
}

/// Whether a clip in a file of clips is the stored clip `c`.
pub open spec fn carries(e: ExportView, c: ClipView) -> bool {
    &&& e.kind == c.kind
    &&& e.content == c.content
    &&& match c.image {
        Some(b) => e.image_b64 is Some && base64_bytes(e.image_b64->0) == Some(b),
        None => e.image_b64 is None,
    }
    &&& e.width == c.width
    &&& e.height == c.height
    &&& e.pinned == (c.pinned != 0)
    &&& e.created_at == c.created_at
}

/// A stored clip as it stands in a file of clips.
pub fn export_clips(
    kind: String,
    content: Option<String>,
    image: Option<Vec<u8>>,
    width: Option<u32>,
    height: Option<u32>,
    pinned: i64,
    created_at: i64,
) -> (r: ExportClip)
    requires
        image matches Some(b) ==> b@.len() <= isize::MAX / 2,
    ensures
        r@ == (ExportView {
            kind: kind@,
            content: opt_text(content),
            image_b64: match image {
                Some(b) => Some(base64_text(b@)),
                None => None,
            },
            width: width,
            height: height,
            pinned: pinned != 0,
            created_at: created_at,
        }),
        image matches Some(b) ==> base64_bytes(r@.image_b64->0) == Some(b@),
        carries(
            r@,
            (ClipView {
                kind: kind@,
                content: opt_text(content),
                image: opt_bytes(image),
                width: width,
                height: height,
                pinned: pinned,
                created_at: created_at,
            }),
        ),
{
    let image_b64 = match &image {
        Some(b) => {
            proof {
                base64_reads_back(b@);
            }
            Some(base64_encode(b.as_slice()))
        },
        None => None,
    };
    ExportClip {
        kind: kind,
        content: content,
        image_b64: image_b64,
        width: width,
        height: height,
        pinned: pinned != 0,
        created_at: created_at,
    }
}

/// A clip from a file of clips, as it is stored.
pub struct ImportedClip {
    pub kind: String,
    pub content: Option<String>,
    pub image: Option<Vec<u8>>,
    pub width: Option<u32>,
    pub height: Option<u32>,
    pub pinned: i64,
    /// As the database holds it.
    pub hash: i64,
    /// In seconds.
    pub created_at: i64,
}

/// The picture of a clip in a file of clips; none where its text is no Base64.
pub open spec fn imported_image(c: ExportView) -> Option<Seq<u8>> {
    match c.image_b64 {
        Some(t) => base64_bytes(t),
        None => None,
    }
}

/// The hash of a clip in a file of clips; 0 where it has neither text nor picture.
pub open spec fn imported_hash(c: ExportView) -> u64 {
    match clip_hash(c.content, imported_image(c)) {
        Some(h) => h,
        None => 0,
    }
}

/// A stored clip with its hash.
#[verifier::ext_equal]
pub struct StoredView {
    pub clip: ClipView,
    /// As the database holds it.
    pub hash: int,
}

impl View for ImportedClip {
    type V = StoredView;

    open spec fn view(&self) -> StoredView {
        StoredView {
            clip: ClipView {
                kind: self.kind@,
                content: opt_text(self.content),
                image: opt_bytes(self.image),
                width: self.width,
                height: self.height,
                pinned: self.pinned,
                created_at: self.created_at,
            },
            hash: self.hash as int,
        }
    }
}

/// What a clip from a file of clips is stored as.
pub open spec fn stored_as(c: ExportView) -> StoredView {
    StoredView {
        clip: ClipView {
            kind: c.kind,
            content: c.content,
            image: imported_image(c),
            width: c.width,
            height: c.height,
            pinned: if c.pinned {
                1
            } else {
                0
            },
            created_at: c.created_at,
        },
        hash: stored_hash(imported_hash(c)),
    }
}

/// A clip from a file of clips, as it is stored.
pub fn import_clips(c: ExportClip) -> (r: ImportedClip)
    ensures
        r@ == stored_as(c@),
{
    let image = match &c.image_b64 {
        Some(t) => base64_decode(t.as_str()),
        None => None,
    };
    let hash: i64 = match crate::store::backfill_hashes(&c.content, &image) {
        Some(h) => h,
        None => hash_column(0),
    };
    ImportedClip {
        kind: c.kind,
        content: c.content,
        image: image,
        width: c.width,
        height: c.height,
        pinned: if c.pinned {
            1
        } else {
            0
        },
        hash: hash,
        created_at: c.created_at,
    }
}

/// What the user is told of a file that holds no clips.
pub fn bad_import(e: &str) -> (r: String)
    ensures
        r@ == "文件格式不正确: "@ + e@,
{
    let mut t = "文件格式不正确: ".to_string();
    t.append(e);
    t
}

/// Whether a clip from a file of clips is to be stored, `known` being whether its hash
/// is: what is there already is not stored twice.
pub fn import_wanted(known: bool) -> (r: bool)
    ensures
        r == !known,
{
    !known
}

/// How many clips of a file are new, once one more was looked at: it counts where it
/// was not known and could be stored.
pub fn import_counted(count: i64, known: bool, stored: bool) -> (r: i64)
    requires
        count < i64::MAX,
    ensures
        r == count + (if !known && stored {
            1int
        } else {
            0
        }),
{
    if import_wanted(known) && stored {
        count + 1
    } else {
        count
    }
}

/// Whether a clip with the given hash is stored.
pub open spec fn knows(rows: Seq<StoredView>, hash: int) -> bool {
    exists|i: int| 0 <= i < rows.len() && (#[trigger] rows[i]).hash == hash
}

/// The stored clips once a file of clips was brought in: those of its clips whose hash
/// was not known come behind the others.
pub open spec fn brought_in(rows: Seq<StoredView>, list: Seq<ExportView>) -> Seq<StoredView>
    decreases list.len(),
{
    if list.len() == 0 {
        rows
    } else {
        let before = brought_in(rows, list.drop_last());
        let c = stored_as(list.last());
        if knows(before, c.hash) {
            before
        } else {
            before.push(c)
        }
    }
}

/// Whether a stored clip holds something, with the hash of what it holds, and is
/// either pinned or not.
pub open spec fn whole(r: StoredView) -> bool {
    &&& clip_hash(r.clip.content, r.clip.image) matches Some(h) && r.hash == stored_hash(h)
    &&& r.clip.pinned == 0 || r.clip.pinned == 1
}

/// A clip that is carried out and brought in again is what it was in every field: its
/// picture comes back byte for byte, and its hash is that of what it holds.
pub proof fn exported_clip_comes_back(e: ExportView, r: StoredView)
    requires
        carries(e, r.clip),
        whole(r),
    ensures
        stored_as(e) == r,
{
    assert(imported_image(e) == r.clip.image);
    assert(stored_as(e).clip =~= r.clip);
}

proof fn lemma_brought_in(rows: Seq<StoredView>, list: Seq<ExportView>)
    ensures
        brought_in(rows, list).len() >= rows.len(),
        brought_in(rows, list).take(rows.len() as int) == rows,
        forall|i: int|
            0 <= i < list.len() ==> knows(
                brought_in(rows, list),
                stored_as(#[trigger] list[i]).hash,
            ),
    decreases list.len(),
{
    let all = brought_in(rows, list);
    if list.len() == 0 {
        assert(all.take(rows.len() as int) =~= rows);
    } else {
        let before = brought_in(rows, list.drop_last());
        let c = stored_as(list.last());
        lemma_brought_in(rows, list.drop_last());
        assert(all.take(rows.len() as int) =~= before.take(rows.len() as int));
        assert forall|i: int| 0 <= i < list.len() implies knows(
            all,
            stored_as(#[trigger] list[i]).hash,
        ) by {
            if i < list.len() - 1 {
                assert(list.drop_last()[i] == list[i]);
                let k = choose|k: int|
                    0 <= k < before.len() && (#[trigger] before[k]).hash == stored_as(list[i]).hash;
                assert(all[k] == before[k]);
            } else if !knows(before, c.hash) {
                assert(all[before.len() as int] == c);
            }
        }
    }
}

proof fn lemma_known_add_nothing(rows: Seq<StoredView>, list: Seq<ExportView>)
    requires
        forall|i: int| 0 <= i < list.len() ==> knows(rows, stored_as(#[trigger] list[i]).hash),
    ensures
        brought_in(rows, list) == rows,
    decreases list.len(),
{
    if list.len() > 0 {
        assert forall|i: int| 0 <= i < list.drop_last().len() implies knows(
            rows,
            stored_as(#[trigger] list.drop_last()[i]).hash,
        ) by {
            assert(list.drop_last()[i] == list[i]);
        }
        lemma_known_add_nothing(rows, list.drop_last());
        assert(list.last() == list[list.len() - 1]);
    }
}

/// Each clip of a file adds one to what is stored, but for those that are known.
pub proof fn each_new_clip_counts(rows: Seq<StoredView>, list: Seq<ExportView>, e: ExportView)
    ensures
        brought_in(rows, list.push(e)).len() == brought_in(rows, list).len() + (if knows(
            brought_in(rows, list),
            stored_as(e).hash,
        ) {
            0int
        } else {
            1
        }),
{
    assert(list.push(e).drop_last() =~= list);
}

/// A file of clips that is brought in twice adds nothing the second time, whatever was
/// stored before.
pub proof fn second_import_adds_nothing(rows: Seq<StoredView>, list: Seq<ExportView>)
    ensures
        brought_in(brought_in(rows, list), list) == brought_in(rows, list),
        brought_in(rows, list).take(rows.len() as int) == rows,
{
    lemma_brought_in(rows, list);
    lemma_known_add_nothing(brought_in(rows, list), list);
}

/// Clips with different hashes that are carried out come back as they were, all of
/// them and in every field, where nothing is stored; and they add nothing where they
/// are stored still.
pub proof fn exported_clips_come_back(rows: Seq<StoredView>, list: Seq<ExportView>)
    requires
        list.len() == rows.len(),
        forall|i: int|
            0 <= i < rows.len() ==> carries(list[i], (#[trigger] rows[i]).clip) && whole(rows[i]),
        forall|i: int, j: int|
            0 <= i < j < rows.len() ==> (#[trigger] rows[i]).hash != (#[trigger] rows[j]).hash,
    ensures
        brought_in(seq![], list) == rows,
        brought_in(rows, list) == rows,
    decreases rows.len(),
{
    if rows.len() == 0 {
        assert(brought_in(seq![], list) =~= rows);
    } else {
        let r = rows.drop_last();
        let l = list.drop_last();
        assert forall|i: int| 0 <= i < r.len() implies carries(l[i], (#[trigger] r[i]).clip)
            && whole(r[i]) by {
            assert(r[i] == rows[i] && l[i] == list[i]);
        }
        assert forall|i: int, j: int| 0 <= i < j < r.len() implies (#[trigger] r[i]).hash != (
        #[trigger] r[j]).hash by {
            assert(r[i] == rows[i] && r[j] == rows[j]);
        }
        exported_clips_come_back(r, l);
        let n = rows.len() - 1;
        assert(carries(list[n], rows[n].clip) && whole(rows[n]));
        exported_clip_comes_back(list.last(), rows.last());
        assert(!knows(r, rows[n].hash)) by {
            assert forall|i: int| 0 <= i < r.len() implies (#[trigger] r[i]).hash
                != rows[n].hash by {
                assert(r[i] == rows[i]);
            }
        }
        assert(r.push(rows.last()) =~= rows);
    }
    second_import_adds_nothing(seq![], list);
}

// ---------- fonts ----------

/// A text without a suffix, as often as it stands at the end.
pub open spec fn without_suffix(s: Seq<char>, suffix: Seq<char>) -> Seq<char>
    decreases s.len(),
{
    if suffix.len() > 0 && matches_at(s, s.len() - suffix.len(), suffix) {
        without_suffix(s.take(s.len() - suffix.len()), suffix)
    } else {
        s
    }
}

/// The name of a font from the name under which the system lists it.
pub open spec fn font_name(s: Seq<char>) -> Seq<char> {
    trim(
        without_suffix(
            without_suffix(without_suffix(s, " (TrueType)"@), " (OpenType)"@),
            " (All res)"@,
        ),
    )
}

fn drop_suffix(v: &Vec<char>, suffix: &Vec<char>) -> (r: Vec<char>)
    ensures
        r@ == without_suffix(v@, suffix@),
{
    let n: usize = suffix.len();
    let mut rest = slice_of(v, 0, v.len());
    assert(rest@ =~= v@);
    while n > 0 && rest.len() >= n && stands_at(&rest, rest.len() - n, suffix)
        invariant
            n == suffix@.len(),
            without_suffix(v@, suffix@) == without_suffix(rest@, suffix@),
        decreases rest@.len(),
    {
        let k: usize = rest.len() - n;
        let less = slice_of(&rest, 0, k);
        assert(less@ =~= rest@.take(rest@.len() - n));
        rest = less;
    }
    rest
}

/// Whether a name occurs in a list.
pub open spec fn lists_font(v: Seq<String>, name: Seq<char>) -> bool {
    exists|i: int| 0 <= i < v.len() && (#[trigger] v[i])@ == name
}

/// The place of a name in a sorted list: how many come before it, and whether it
/// is there.
fn font_place(list: &Vec<String>, name: &str) -> (r: (usize, bool))
    requires
        sorted_fonts(list@),
    ensures
        r.0 <= list@.len(),
        forall|i: int| 0 <= i < r.0 ==> text_le((#[trigger] list@[i])@, name@) && list@[i]@ != name@,
        !r.1 ==> forall|i: int| r.0 <= i < list@.len() ==> text_le(name@, (#[trigger] list@[i])@)
            && list@[i]@ != name@,
        r.1 ==> lists_font(list@, name@),
{
    let mut i: usize = 0;
    while i < list.len() && !in_order(name, list[i].as_str())
        invariant
            i <= list@.len(),
            forall|j: int|
                0 <= j < i ==> text_le((#[trigger] list@[j])@, name@) && list@[j]@ != name@,
        decreases list@.len() - i,
    {
        proof {
            lemma_text_le_total(name@, list@[i as int]@);
        }
        i = i + 1;
    }
    if i < list.len() && same(list[i].as_str(), name) {
        assert(list@[i as int]@ == name@);
        return (i, true);
    }
    proof {
        assert forall|j: int| i <= j < list@.len() implies text_le(name@, (#[trigger] list@[j])@)
            && list@[j]@ != name@ by {
            if j > i {
                assert(text_le(list@[i as int]@, list@[j]@));
                lemma_text_le_transitive(name@, list@[i as int]@, list@[j]@);
                if list@[j]@ == name@ {
                    lemma_text_le_antisymmetric(name@, list@[i as int]@);
                }
            }
        }
    }
    (i, false)
}

/// A list in order in which no name occurs twice.
pub open spec fn sorted_fonts(v: Seq<String>) -> bool {
    forall|i: int, j: int|
        0 <= i < j < v.len() ==> text_le((#[trigger] v[i])@, (#[trigger] v[j])@) && v[i]@ != v[j]@
}

/// Whether some name of the system's list is that of a font.
pub open spec fn has_font(names: Seq<String>, name: Seq<char>) -> bool {
    name.len() > 0 && exists|i: int| 0 <= i < names.len() && font_name((#[trigger] names[i])@) == name
}

/// The fonts of the system in order, each once, from the names under which it
/// lists them.
pub fn list_system_fonts(names: &Vec<String>) -> (r: Vec<String>)
    ensures
        sorted_fonts(r@),
        forall|n: Seq<char>| #[trigger] lists_font(r@, n) <==> has_font(names@, n),
{
    let mut list: Vec<String> = Vec::new();
    let mut i: usize = 0;
    while i < names.len()
        invariant
            i <= names@.len(),
            sorted_fonts(list@),
            forall|n: Seq<char>| #[trigger]
                lists_font(list@, n) <==> n.len() > 0 && exists|j: int|
                    0 <= j < i && font_name((#[trigger] names@[j])@) == n,
        decreases names@.len() - i,
    {
        let a = drop_suffix(&chars_of(names[i].as_str()), &chars_of(" (TrueType)"));
        let b = drop_suffix(&a, &chars_of(" (OpenType)"));
        let c = drop_suffix(&b, &chars_of(" (All res)"));
        let t = trim_chars(&c);
        let ghost name = font_name(names@[i as int]@);
        let ghost before = list@;
        assert(t@ == name);
        if t.len() > 0 {
            let s = string_of(&t);
            let (at, there) = font_place(&list, s.as_str());
            if !there {
                let ghost sv = s@;
                list.insert(at, s);
                proof {
                    assert forall|a: int, b: int| 0 <= a < b < list@.len() implies text_le(
                        (#[trigger] list@[a])@,
                        (#[trigger] list@[b])@,
                    ) && list@[a]@ != list@[b]@ by {
                        let a2 = if a < at {
                            a
                        } else {
                            a - 1
                        };
                        let b2 = if b < at {
                            b
                        } else {
                            b - 1
                        };
                        if a != at {
                            assert(list@[a] == before[a2]);
                        }
                        if b != at {
                            assert(list@[b] == before[b2]);
                        }
                    }
                    assert forall|n: Seq<char>| #[trigger] lists_font(list@, n) <==> (lists_font(
                        before,
                        n,
                    ) || n == name) by {
                        if lists_font(before, n) {
                            let k = choose|k: int| 0 <= k < before.len() && (#[trigger] before[k])@ == n;
                            let k2 = if k < at {
                                k
                            } else {
                                k + 1
                            };
                            assert(list@[k2]@ == n);
                        }
                        if n == name {
                            assert(list@[at as int]@ == n);
                        }
                        if lists_font(list@, n) && n != name {
                            let k = choose|k: int| 0 <= k < list@.len() && (#[trigger] list@[k])@ == n;
                            let k2 = if k < at {
                                k
                            } else {
                                k - 1
                            };
                            assert(before[k2]@ == n);
                        }
                    }
                }
            }
        }
        proof {
            assert forall|n: Seq<char>| #[trigger] lists_font(list@, n) <==> (n.len() > 0
                && exists|j: int| 0 <= j < i + 1 && font_name((#[trigger] names@[j])@) == n) by {
                if lists_font(list@, n) {
                    if lists_font(before, n) {
                        let j = choose|j: int| 0 <= j < i && font_name((#[trigger] names@[j])@) == n;
                        assert(font_name(names@[j]@) == n);
                    } else {
                        assert(font_name(names@[i as int]@) == n);
                    }
                }
                if n.len() > 0 && exists|j: int|
                    0 <= j < i + 1 && font_name((#[trigger] names@[j])@) == n {
                    let j = choose|j: int|
                        0 <= j < i + 1 && font_name((#[trigger] names@[j])@) == n;
                    if j < i {
                        assert(lists_font(before, n));
                        let k = choose|k: int| 0 <= k < before.len() && (#[trigger] before[k])@ == n;
                        assert(before[k]@ == n);
                    }
                }
            }
        }
        i = i + 1;
    }
    list
}

// ---------- the database in numbers ----------

/// What is shown of the database.
pub struct DbInfo {
    pub path: String,
    pub file_size: u64,
    pub total: i64,
    pub text_count: i64,
    pub image_count: i64,
    pub pinned_count: i64,
    pub max_items: i64,
}

/// The number of clips.
pub const COUNT_ALL: &'static str = "SELECT COUNT(*) FROM clips";

/// The number of texts.
pub const COUNT_TEXT: &'static str = "SELECT COUNT(*) FROM clips WHERE kind='text'";

/// The number of pictures.
pub const COUNT_IMAGE: &'static str = "SELECT COUNT(*) FROM clips WHERE kind='image'";

/// The number of pinned clips.
pub const COUNT_PINNED: &'static str = "SELECT COUNT(*) FROM clips WHERE pinned=1";

// ---------- laws of what is shown ----------

proof fn lemma_ext_of_name(s: Seq<char>, e: Seq<char>)
    requires
        forall|i: int| 0 <= i < s.len() ==> #[trigger] s[i] != '/' && s[i] != '\\',
        forall|i: int| 0 <= i < e.len() ==> #[trigger] e[i] != '/' && e[i] != '\\' && e[i] != '.',
    ensures
        ({
            let n = s + seq!['.'] + e;
            &&& forall|i: int| 0 <= i < n.len() ==> #[trigger] n[i] != '/' && n[i] != '\\'
            &&& last_at(n, '.') == s.len()
            &&& n.subrange(s.len() as int + 1, n.len() as int) == e
        }),
        last_at(e, '.') == -1,
{
    let n = s + seq!['.'] + e;
    let k = s.len() as int;
    assert forall|i: int| 0 <= i < n.len() implies #[trigger] n[i] != '/' && n[i] != '\\' by {
        if i < k {
            assert(n[i] == s[i]);
        } else if i > k {
            assert(n[i] == e[i - k - 1]);
        }
    }
    crate::text::last_place_is_last(n, '.');
    crate::text::last_place_is_last(e, '.');
    assert(n[k] == '.');
    if last_at(n, '.') > k {
        assert(n[last_at(n, '.')] == e[last_at(n, '.') - k - 1]);
    }
    assert(n.subrange(k + 1, n.len() as int) =~= e);
}

/// The ending of a path is what follows the last dot of its last component, in small
/// letters: for every directory `d`, every stem `s` and every `e` without a dot, the
/// ending of `d/s.e` is `e`. A last component without a dot has none.
pub proof fn ending_follows_the_last_dot(d: Seq<char>, s: Seq<char>, e: Seq<char>)
    requires
        forall|i: int| 0 <= i < s.len() ==> #[trigger] s[i] != '/' && s[i] != '\\',
        forall|i: int| 0 <= i < e.len() ==> #[trigger] e[i] != '/' && e[i] != '\\' && e[i] != '.',
    ensures
        path_ext(s + seq!['.'] + e) == lowercase(e),
        path_ext(d + seq!['/'] + (s + seq!['.'] + e)) == lowercase(e),
        path_ext(d + seq!['\\'] + (s + seq!['.'] + e)) == lowercase(e),
        path_ext(e) == Seq::<char>::empty(),
        path_ext(d + seq!['/'] + e) == Seq::<char>::empty(),
        path_ext(d + seq!['\\'] + e) == Seq::<char>::empty(),
{
    let n = s + seq!['.'] + e;
    lemma_ext_of_name(s, e);
    crate::text::last_component_follows_the_separator(d, n);
    assert forall|i: int| 0 <= i < e.len() implies #[trigger] e[i] != '/' && e[i] != '\\' by {}
    crate::text::last_component_follows_the_separator(d, e);
}

/// Whether an ending is one of those of videos.
pub open spec fn names_video(e: Seq<char>) -> bool {
    ||| e == "mp4"@ || e == "mkv"@ || e == "avi"@ || e == "mov"@ || e == "wmv"@ || e == "flv"@
    ||| e == "webm"@ || e == "m4v"@ || e == "mpg"@ || e == "mpeg"@ || e == "ts"@ || e == "m2ts"@
    ||| e == "rmvb"@ || e == "rm"@ || e == "3gp"@ || e == "f4v"@ || e == "vob"@
}

/// Whether an ending is one of those of documents.
pub open spec fn names_document(e: Seq<char>) -> bool {
    ||| e == "txt"@ || e == "doc"@ || e == "docx"@ || e == "xls"@ || e == "xlsx"@ || e == "ppt"@
    ||| e == "pptx"@ || e == "csv"@ || e == "pdf"@ || e == "md"@ || e == "rtf"@ || e == "wps"@
    ||| e == "et"@ || e == "dps"@ || e == "odt"@ || e == "ods"@ || e == "odp"@
}

/// The endings of videos and of documents are these and no others.
pub proof fn endings_are_these(e: Seq<char>)
    ensures
        video_exts().contains(e) <==> names_video(e),
        office_exts().contains(e) <==> names_document(e),
{
    let v = video_exts();
    let o = office_exts();
    assert(v[0] == "mp4"@ && v[1] == "mkv"@ && v[2] == "avi"@ && v[3] == "mov"@ && v[4] == "wmv"@
        && v[5] == "flv"@);
    assert(v[6] == "webm"@ && v[7] == "m4v"@ && v[8] == "mpg"@ && v[9] == "mpeg"@ && v[10] == "ts"@
        && v[11] == "m2ts"@);
    assert(v[12] == "rmvb"@ && v[13] == "rm"@ && v[14] == "3gp"@ && v[15] == "f4v"@ && v[16]
        == "vob"@);
    assert(o[0] == "txt"@ && o[1] == "doc"@ && o[2] == "docx"@ && o[3] == "xls"@ && o[4] == "xlsx"@
        && o[5] == "ppt"@);
    assert(o[6] == "pptx"@ && o[7] == "csv"@ && o[8] == "pdf"@ && o[9] == "md"@ && o[10] == "rtf"@
        && o[11] == "wps"@);
    assert(o[12] == "et"@ && o[13] == "dps"@ && o[14] == "odt"@ && o[15] == "ods"@ && o[16]
        == "odp"@);
    if v.contains(e) {
        let i = choose|i: int| 0 <= i < v.len() && v[i] == e;
        assert(names_video(e));
    }
    if o.contains(e) {
        let i = choose|i: int| 0 <= i < o.len() && o[i] == e;
        assert(names_document(e));
    }
}

/// The first line that is not blank is just that: the blank ones before it do not
/// count, and nothing after it does.
pub proof fn first_filled_line_comes_first(
    before: Seq<Seq<char>>,
    l: Seq<char>,
    rest: Seq<Seq<char>>,
)
    requires
        forall|i: int, j: int|
            #![trigger before[i][j]]
            0 <= i < before.len() && 0 <= j < before[i].len() ==> white_space(before[i][j]),
    ensures
        first_filled(before) is None,
        (exists|j: int| 0 <= j < l.len() && !white_space(#[trigger] l[j])) ==> first_filled(
            before + seq![l] + rest,
        ) == Some(l),
    decreases before.len(),
{
    let all = before + seq![l] + rest;
    if before.len() > 0 {
        let b = before.skip(1);
        assert forall|i: int, j: int|
            #![trigger b[i][j]]
            0 <= i < b.len() && 0 <= j < b[i].len() implies white_space(b[i][j]) by {
            assert(b[i][j] == before[i + 1][j]);
        }
        first_filled_line_comes_first(b, l, rest);
        assert(all[0] == before[0]);
        assert forall|j: int| 0 <= j < before[0].len() implies white_space(
            #[trigger] before[0][j],
        ) by {}
        assert(blank(before[0]));
        assert(all.skip(1) =~= b + seq![l] + rest);
    } else {
        assert(all[0] == l);
    }
}

/// Of several lines those that are not blank are kept, in order.
pub proof fn filled_lines_are_kept(ls: Seq<Seq<char>>, l: Seq<char>)
    ensures
        filled(Seq::empty()) == Seq::<Seq<char>>::empty(),
        (exists|j: int| 0 <= j < l.len() && !white_space(#[trigger] l[j])) ==> filled(ls.push(l))
            == filled(ls).push(l),
        (forall|j: int| 0 <= j < l.len() ==> white_space(#[trigger] l[j])) ==> filled(ls.push(l))
            == filled(ls),
{
    assert(ls.push(l).drop_last() =~= ls);
}

proof fn lemma_lone_path(p: Seq<char>, more: Seq<char>)
    requires
        p.len() > 0,
        forall|i: int| 0 <= i < p.len() ==> #[trigger] p[i] != '\n',
        p.last() != '\r',
        exists|j: int| 0 <= j < p.len() && !white_space(#[trigger] p[j]),
    ensures
        first_filled(lines(p)) == Some(p),
        first_filled(lines(p + seq!['\n'] + more)) == Some(p),
{
    crate::text::lines_end_at_line_feeds(p, more);
    let none = Seq::<Seq<char>>::empty();
    first_filled_line_comes_first(none, p, none);
    first_filled_line_comes_first(none, p, lines(more));
    assert(none + seq![p] + none =~= seq![p]);
    assert(none + seq![p] + lines(more) =~= seq![p] + lines(more));
}

/// Clips of files are sorted by the ending of the first of them: with any directory
/// and stem, and whatever files follow, they are a video exactly where the ending in
/// small letters is one of those of videos, documents exactly where it is one of
/// theirs, and else just files.
pub proof fn files_are_sorted_by_ending(d: Seq<char>, s: Seq<char>, e: Seq<char>, more: Seq<char>)
    requires
        forall|i: int| 0 <= i < d.len() ==> #[trigger] d[i] != '\n',
        forall|i: int| 0 <= i < s.len() ==> #[trigger] s[i] != '/' && s[i] != '\\' && s[i] != '\n',
        forall|i: int|
            0 <= i < e.len() ==> #[trigger] e[i] != '/' && e[i] != '\\' && e[i] != '.' && e[i]
                != '\n',
        e.len() > 0 ==> e.last() != '\r',
    ensures
        ({
            let p = d + seq!['/'] + (s + seq!['.'] + e);
            let x = lowercase(e);
            let one = category("file"@, Some(p));
            &&& one == "video"@ <==> names_video(x)
            &&& one == "office"@ <==> names_document(x) && !names_video(x)
            &&& one == "file"@ <==> !names_video(x) && !names_document(x)
            &&& category("file"@, Some(p + seq!['\n'] + more)) == one
        }),
{
    let n = s + seq!['.'] + e;
    let p = d + seq!['/'] + n;
    assert forall|i: int| 0 <= i < s.len() implies #[trigger] s[i] != '/' && s[i] != '\\' by {}
    assert forall|i: int| 0 <= i < e.len() implies #[trigger] e[i] != '/' && e[i] != '\\' && e[i]
        != '.' by {}
    ending_follows_the_last_dot(d, s, e);
    assert forall|i: int| 0 <= i < p.len() implies #[trigger] p[i] != '\n' by {
        let k = i - d.len() - 1;
        if k < -1 {
            assert(p[i] == d[i]);
        } else if k >= 0 {
            assert(p[i] == n[k]);
            if k < s.len() {
                assert(n[k] == s[k]);
            } else if k > s.len() {
                assert(n[k] == e[k - s.len() - 1]);
            }
        }
    }
    if e.len() > 0 {
        assert(p.last() == e.last());
    } else {
        assert(p.last() == '.');
    }
    assert(p[d.len() as int] == '/');
    assert(!white_space(p[d.len() as int]));
    lemma_lone_path(p, more);
    endings_are_these(lowercase(e));
    lemma_kinds_differ();
}

proof fn lemma_kinds_differ()
    ensures
        "file"@ != "text"@,
        "file"@ != "image"@,
        "text"@ != "image"@,
        "file"@ != "video"@,
        "file"@ != "office"@,
        "video"@ != "office"@,
{
    reveal_strlit("file");
    reveal_strlit("text");
    reveal_strlit("image");
    reveal_strlit("video");
    reveal_strlit("office");
    assert("file"@[0] == 'f' && "text"@[0] == 't' && "image"@[0] == 'i');
    assert("video"@[0] == 'v' && "office"@[0] == 'o');
}

/// Texts and pictures are what they are; of another kind all are files.
pub proof fn kinds_are_their_category(kind: Seq<char>, content: Option<Seq<char>>)
    ensures
        category("text"@, content) == "text"@,
        category("image"@, content) == "image"@,
        kind != "text"@ && kind != "image"@ && kind != "file"@ ==> category(kind, content)
            == "file"@,
        category("file"@, None) == "file"@,
{
    lemma_kinds_differ();
    let none = Seq::<char>::empty();
    crate::text::lines_end_at_line_feeds(none, none);
    crate::text::last_place_is_last(none, '.');
    assert(path_ext(none) =~= none);
    endings_are_these(none);
    reveal_strlit("mp4");
    reveal_strlit("mkv");
    reveal_strlit("avi");
    reveal_strlit("mov");
    reveal_strlit("wmv");
    reveal_strlit("flv");
    reveal_strlit("webm");
    reveal_strlit("m4v");
    reveal_strlit("mpg");
    reveal_strlit("mpeg");
    reveal_strlit("ts");
    reveal_strlit("m2ts");
    reveal_strlit("rmvb");
    reveal_strlit("rm");
    reveal_strlit("3gp");
    reveal_strlit("f4v");
    reveal_strlit("vob");
    reveal_strlit("txt");
    reveal_strlit("doc");
    reveal_strlit("docx");
    reveal_strlit("xls");
    reveal_strlit("xlsx");
    reveal_strlit("ppt");
    reveal_strlit("pptx");
    reveal_strlit("csv");
    reveal_strlit("pdf");
    reveal_strlit("md");
    reveal_strlit("rtf");
    reveal_strlit("wps");
    reveal_strlit("et");
    reveal_strlit("dps");
    reveal_strlit("odt");
    reveal_strlit("ods");
    reveal_strlit("odp");
}

/// The preview of a text is the text, up to 300 characters of it; that of a picture
/// is its size; that of files is the name of the first of them, with their number
/// where there are several.
pub proof fn previews_show_the_start(
    t: Seq<char>,
    w: u32,
    h: u32,
    content: Option<Seq<char>>,
    ow: Option<u32>,
    oh: Option<u32>,
)
    ensures
        t.len() <= 300 ==> preview("text"@, Some(t), ow, oh) == t,
        t.len() > 300 ==> preview("text"@, Some(t), ow, oh).len() == 300 && preview(
            "text"@,
            Some(t),
            ow,
            oh,
        ) == t.take(300),
        preview("text"@, None, ow, oh).len() == 0,
        preview("image"@, content, Some(w), Some(h)) == "[图片 "@ + dec(w as nat) + "x"@ + dec(
            h as nat,
        ) + "]"@,
        preview("image"@, content, None, None) == "[图片 "@ + dec(0) + "x"@ + dec(0) + "]"@,
{
    lemma_kinds_differ();
}

/// The preview of one file is its name without directories; several are told by the
/// name of the first and their number.
pub proof fn previews_name_files(
    d: Seq<char>,
    name: Seq<char>,
    more: Seq<char>,
    w: Option<u32>,
    h: Option<u32>,
)
    requires
        forall|i: int| 0 <= i < d.len() ==> #[trigger] d[i] != '\n',
        forall|i: int|
            0 <= i < name.len() ==> #[trigger] name[i] != '/' && name[i] != '\\' && name[i] != '\n',
        name.len() > 0 ==> name.last() != '\r',
    ensures
        ({
            let p = d + seq!['/'] + name;
            let n = filled(lines(more)).len();
            &&& preview("file"@, Some(p), w, h) == "📄 "@ + name
            &&& preview("file"@, Some(p + seq!['\n'] + more), w, h) == (if n == 0 {
                "📄 "@ + name
            } else {
                "📄 "@ + name + " 等 "@ + dec(n + 1) + " 个文件"@
            })
            &&& preview("file"@, None, w, h) == "📄 "@ + "文件"@
        }),
{
    lemma_kinds_differ();
    let p = d + seq!['/'] + name;
    assert forall|i: int| 0 <= i < name.len() implies #[trigger] name[i] != '/' && name[i] != '\\' by {}
    crate::text::last_component_follows_the_separator(d, name);
    assert forall|i: int| 0 <= i < p.len() implies #[trigger] p[i] != '\n' by {
        if i < d.len() {
            assert(p[i] == d[i]);
        } else if i > d.len() {
            assert(p[i] == name[i - d.len() - 1]);
        }
    }
    if name.len() > 0 {
        assert(p.last() == name.last());
    } else {
        assert(p.last() == '/');
    }
    assert(p[d.len() as int] == '/');
    assert(!white_space(p[d.len() as int]));
    crate::text::lines_end_at_line_feeds(p, more);
    let none = Seq::<Seq<char>>::empty();
    filled_lines_are_kept(none, p);
    assert(none.push(p) =~= seq![p]);
    assert(filled(seq![p]) =~= seq![p]);
    lemma_filled_join(seq![p], lines(more));
    crate::text::lines_end_at_line_feeds(Seq::empty(), Seq::empty());
    assert(filled(none) =~= none);
}

proof fn lemma_filled_join(a: Seq<Seq<char>>, b: Seq<Seq<char>>)
    ensures
        filled(a + b) == filled(a) + filled(b),
    decreases b.len(),
{
    if b.len() == 0 {
        assert(a + b =~= a);
        assert(filled(a) + filled(b) =~= filled(a));
    } else {
        lemma_filled_join(a, b.drop_last());
        assert((a + b).drop_last() =~= a + b.drop_last());
        assert(filled(a + b) =~= filled(a) + filled(b));
    }
}

/// What is looked for is the keyword without the white space around it, anywhere in
/// a text; without a keyword nothing is.
pub proof fn keywords_stand_anywhere(a: Seq<char>, k: Seq<char>, b: Seq<char>)
    requires
        forall|i: int| 0 <= i < a.len() ==> white_space(#[trigger] a[i]),
        forall|i: int| 0 <= i < b.len() ==> white_space(#[trigger] b[i]),
        k.len() > 0,
        !white_space(k[0]),
        !white_space(k.last()),
    ensures
        search_pattern(Some(a + k + b)) == Some("%"@ + k + "%"@),
        search_pattern(Some(a)) is None,
        search_pattern(None) is None,
{
    crate::text::white_space_around_is_cut(a, k, b);
    let t = a + k + b;
    assert(t[a.len() as int] == k[0]);
    assert(!blank(t));
}

// ---------- laws of addresses ----------

/// Whether an address may hold a character: it is no white space, no quote and no
/// bracket at which an address ends.
pub open spec fn stays_in_address(c: char) -> bool {
    &&& !white_space(c)
    &&& c != '"' && c != '\'' && c != '<' && c != '>' && c != ')' && c != ']'
    &&& c != '）' && c != '】'
}

/// Whether a character ends a sentence rather than an address.
pub open spec fn ends_sentence(c: char) -> bool {
    ||| c == '.' || c == ',' || c == ';' || c == '!' || c == '?'
    ||| c == '。' || c == '，' || c == '；'
}

proof fn lemma_address_end(s: Seq<char>, from: int, to: int)
    requires
        0 <= from <= to <= s.len(),
        forall|i: int| from <= i < to ==> stays_in_address(#[trigger] s[i]),
        to < s.len() ==> !stays_in_address(s[to]),
    ensures
        url_end(s, from) == to,
    decreases to - from,
{
    if from < to {
        assert(stays_in_address(s[from]));
        lemma_address_end(s, from + 1, to);
    }
}

proof fn lemma_trail_cut(u: Seq<char>, t: Seq<char>)
    requires
        u.len() > 0,
        !ends_sentence(u.last()),
        forall|i: int| 0 <= i < t.len() ==> ends_sentence(#[trigger] t[i]),
    ensures
        without_trail(u + t) == u,
    decreases t.len(),
{
    if t.len() == 0 {
        assert(u + t =~= u);
    } else {
        let d = t.drop_last();
        assert forall|i: int| 0 <= i < d.len() implies ends_sentence(#[trigger] d[i]) by {
            assert(d[i] == t[i]);
        }
        lemma_trail_cut(u, d);
        assert(ends_sentence(t[t.len() - 1]));
        assert((u + t).last() == t[t.len() - 1]);
        assert((u + t).drop_last() =~= u + d);
    }
}

proof fn lemma_first_start(s: Seq<char>, at: int)
    requires
        0 <= at <= s.len(),
        matches_at(s, at, "https://"@) || matches_at(s, at, "http://"@),
        forall|i: int|
            0 <= i < at ==> !(#[trigger] matches_at(s, i, "https://"@)) && !matches_at(
                s,
                i,
                "http://"@,
            ),
    ensures
        url_start(s) == at,
{
    reveal_strlit("https://");
    reveal_strlit("http://");
    assert("https://"@.len() == 8 && "http://"@.len() == 7);
    crate::text::first_match_is_first(s, 0, "https://"@);
    crate::text::first_match_is_first(s, 0, "http://"@);
    let secure = find_from(s, 0, "https://"@);
    let plain = find_from(s, 0, "http://"@);
    if secure >= 0 {
        assert(matches_at(s, secure, "https://"@));
    }
    if plain >= 0 {
        assert(matches_at(s, plain, "http://"@));
        if plain < at {
            assert(!matches_at(s, plain, "https://"@));
        }
    }
    if matches_at(s, at, "https://"@) {
        assert(s.subrange(at, at + 8) == "https://"@);
        assert(secure == at);
    } else {
        assert(s.subrange(at, at + 7) == "http://"@);
        assert(plain == at);
    }
}

/// The address in a text is found: it starts at the first `http://` or `https://`,
/// runs to the first blank, quote or closing bracket, and leaves out the marks that
/// end a sentence; it is one where it has more than 8 bytes.
pub proof fn address_in_a_text_is_found(
    a: Seq<char>,
    u: Seq<char>,
    t: Seq<char>,
    b: Seq<char>,
)
    requires
        matches_at(u, 0, "https://"@) || matches_at(u, 0, "http://"@),
        forall|i: int| 0 <= i < u.len() ==> stays_in_address(#[trigger] u[i]),
        !ends_sentence(u.last()),
        encode_utf8(u).len() > 8,
        forall|i: int| 0 <= i < t.len() ==> ends_sentence(#[trigger] t[i]),
        b.len() > 0 ==> !stays_in_address(b[0]),
        forall|i: int|
            0 <= i < a.len() ==> !(#[trigger] matches_at(a + u + t + b, i, "https://"@))
                && !matches_at(a + u + t + b, i, "http://"@),
    ensures
        url_in(a + u + t + b) == Some(u),
{
    let s = a + u + t + b;
    let n = a.len() as int;
    let m = n + u.len() + t.len();
    reveal_strlit("https://");
    reveal_strlit("http://");
    let k: int = if matches_at(u, 0, "https://"@) {
        8
    } else {
        7
    };
    assert(s.subrange(n, n + k) =~= u.subrange(0, k));
    assert(u.subrange(0, 0 + k) =~= u.subrange(0, k));
    lemma_first_start(s, n);
    assert forall|i: int| n <= i < m implies stays_in_address(#[trigger] s[i]) by {
        if i < n + u.len() {
            assert(s[i] == u[i - n]);
        } else {
            assert(s[i] == t[i - n - u.len()]);
            assert(ends_sentence(t[i - n - u.len()]));
        }
    }
    if m < s.len() {
        assert(s[m] == b[0]);
    }
    lemma_address_end(s, n, m);
    assert(s.subrange(n, m) =~= u + t);
    lemma_trail_cut(u, t);
}

/// A text in which neither `http://` nor `https://` stands holds no address.
pub proof fn no_address_without_a_scheme(s: Seq<char>)
    requires
        forall|i: int|
            0 <= i <= s.len() ==> !(#[trigger] matches_at(s, i, "https://"@)) && !matches_at(
                s,
                i,
                "http://"@,
            ),
    ensures
        url_in(s) is None,
{
    crate::text::first_match_is_first(s, 0, "https://"@);
    crate::text::first_match_is_first(s, 0, "http://"@);
    let secure = find_from(s, 0, "https://"@);
    let plain = find_from(s, 0, "http://"@);
    if secure >= 0 {
        assert(matches_at(s, secure, "https://"@));
    }
    if plain >= 0 {
        assert(!matches_at(s, plain, "https://"@));
        assert(matches_at(s, plain, "http://"@));
    }
}

// ---------- laws of what is opened and put back ----------

/// A clip goes back into the clipboard as what it was: a text or files as their text,
/// a picture as the pixels of its file.
pub proof fn clips_go_back_as_they_were(
    r: Result<Payload, String>,
    kind: Seq<char>,
    content: Option<Seq<char>>,
    image: Option<Seq<u8>>,
)
    requires
        payload_is(r, kind, content, image),
    ensures
        kind != "image"@ && content is Some ==> r is Ok && (r->Ok_0 matches Payload::Text(t) && t@
            == content->0),
        kind != "image"@ && content is None ==> r is Ok && (r->Ok_0 matches Payload::Text(t)
            && t@.len() == 0),
        kind == "image"@ && image is None ==> r is Err && r->Err_0@ == "empty image"@,
        kind == "image"@ && image is Some && image_pixels(image->0) is Ok ==> r is Ok && (
        r->Ok_0 matches Payload::Image(p, w, h) && (p@, w, h) == image_pixels(image->0)->Ok_0),
        kind == "image"@ && image is Some && image_pixels(image->0) is Err ==> r is Err && r->Err_0@
            == image_pixels(image->0)->Err_0,
{
}

/// A clip is opened as what it is: a picture or a text as a file of its own that holds
/// just that, named by the number of the clip; files by the first of their paths.
pub proof fn clips_open_as_they_are(
    r: Result<OpenPlan, String>,
    id: i64,
    kind: Seq<char>,
    content: Option<Seq<char>>,
    image: Option<Seq<u8>>,
)
    requires
        plan_is(r, id, kind, content, image),
    ensures
        kind == "image"@ && image is Some ==> r is Ok && (r->Ok_0 matches OpenPlan::Write(n, d)
            && n@ == "clip_"@ + dec_int(id as int) + ".png"@ && d@ == image->0),
        kind == "image"@ && image is None ==> r is Err && r->Err_0@ == "图片数据为空"@,
        kind == "file"@ && content is Some && first_filled(lines(content->0)) is Some ==> r is Ok
            && (r->Ok_0 matches OpenPlan::Path(p) && Some(p@) == first_filled(lines(content->0))),
        kind == "file"@ && content is Some && first_filled(lines(content->0)) is None ==> r is Err
            && r->Err_0@ == "文件路径为空"@,
        kind != "image"@ && kind != "file"@ && content is Some ==> r is Ok && (
        r->Ok_0 matches OpenPlan::Write(n, d) && n@ == "clip_"@ + dec_int(id as int) + ".txt"@ && d@
            == encode_utf8(content->0)),
{
    lemma_kinds_differ();
}

/// What is listed of a row is the row: its number, kind, time and pin, and what its
/// content is and starts with.
pub proof fn rows_are_listed_as_they_are(c: Clip, row: ListRow)
    requires
        shows(c, row),
    ensures
        c.id == row.id,
        c.kind@ == row.kind@,
        c.created_at == row.created_at,
        c.pinned <==> row.pinned != 0,
        c.image_b64 is None,
        row.kind@ == "text"@ ==> c.category@ == "text"@,
        row.kind@ == "image"@ ==> c.category@ == "image"@,
        row.kind@ == "text"@ && row.content is Some && row.content->0@.len() <= 300 ==> c.preview@
            == row.content->0@,
        row.content is Some ==> opt_text(c.url) == url_in(row.content->0@),
        row.content is None ==> c.url is None,
{
    lemma_kinds_differ();
}

/// A list holds 500 rows at most, and every row where there are no more.
pub proof fn short_lists_hold_every_row(rows: Seq<ListRow>, i: int)
    requires
        0 <= i < rows.len() <= 500,
    ensures
        list_order(rows).len() == rows.len(),
        exists|k: int| 0 <= k < rows.len() && (#[trigger] list_order(rows)[k]).at == i,
        LIST_LIMIT == 500,
{
    let s = list_ranks(rows);
    let o = list_order(rows);
    ranking_orders(s);
    assert(s[i] == (Ranked { high: rows[i].pinned, low: rows[i].created_at, at: i as usize }));
    assert(o.len() == rows.len());
    assert(s.contains(s[i]));
    assert(o.contains(s[i]));
    let k = choose|k: int| 0 <= k < o.len() && o[k] == s[i];
    assert(list_order(rows)[k].at == i);
}

// ---------- laws of fonts ----------

proof fn lemma_other_end(s: Seq<char>, suffix: Seq<char>, k: int)
    requires
        0 < k <= suffix.len(),
        k <= s.len(),
        s[s.len() - k] != suffix[suffix.len() - k],
    ensures
        without_suffix(s, suffix) == s,
{
    let at = s.len() - suffix.len();
    if matches_at(s, at, suffix) {
        assert(s.subrange(at, at + suffix.len())[suffix.len() - k] == s[s.len() - k]);
    }
}

/// The name of a font is what stands before the note on its format, if there is one:
/// a name that does not end with a bracket stays as it is, and one of the three notes
/// behind it is cut off.
pub proof fn font_names_lose_their_note(s: Seq<char>)
    requires
        s.len() > 0,
        !white_space(s[0]),
        !white_space(s.last()),
        s.last() != ')',
    ensures
        font_name(s) == s,
        font_name(s + " (TrueType)"@) == s,
        font_name(s + " (OpenType)"@) == s,
        font_name(s + " (All res)"@) == s,
{
    reveal_strlit(" (TrueType)");
    reveal_strlit(" (OpenType)");
    reveal_strlit(" (All res)");
    let a = " (TrueType)"@;
    let b = " (OpenType)"@;
    let c = " (All res)"@;
    assert(a.len() == 11 && b.len() == 11 && c.len() == 10);
    lemma_other_end(s, a, 1);
    lemma_other_end(s, b, 1);
    lemma_other_end(s, c, 1);
    crate::text::trimmed_stays(s);
    let x = s + a;
    assert(x.subrange(x.len() - 11, x.len() - 11 + 11) =~= a);
    assert(x.take(x.len() - 11) =~= s);
    assert(without_suffix(x, a) == s);
    let y = s + b;
    assert(y[y.len() - 9] == b[2]);
    lemma_other_end(y, a, 9);
    assert(y.subrange(y.len() - 11, y.len() - 11 + 11) =~= b);
    assert(y.take(y.len() - 11) =~= s);
    assert(without_suffix(y, b) == s);
    let z = s + c;
    assert(z[z.len() - 2] == c[8]);
    lemma_other_end(z, a, 2);
    lemma_other_end(z, b, 2);
    assert(z.subrange(z.len() - 10, z.len() - 10 + 10) =~= c);
    assert(z.take(z.len() - 10) =~= s);
    assert(without_suffix(z, c) == s);
}

/// Every font of the system is listed under its name, unless nothing is left of that;
/// nothing else is, and the names are in order, each once.
pub proof fn every_font_is_listed_once(names: Seq<String>, list: Seq<String>, i: int, j: int)
    requires
        sorted_fonts(list),
        forall|n: Seq<char>| #[trigger] lists_font(list, n) <==> has_font(names, n),
        0 <= i < names.len(),
        0 <= j < list.len(),
    ensures
        font_name(names[i]@).len() > 0 ==> exists|k: int|
            0 <= k < list.len() && (#[trigger] list[k])@ == font_name(names[i]@),
        exists|k: int| 0 <= k < names.len() && font_name((#[trigger] names[k])@) == list[j]@,
        list[j]@.len() > 0,
        j > 0 ==> text_le(list[j - 1]@, list[j]@) && list[j - 1]@ != list[j]@,
{
    let f = font_name(names[i]@);
    if f.len() > 0 {
        assert(has_font(names, f));
        assert(lists_font(list, f));
    }
    assert(lists_font(list, list[j]@));
    assert(has_font(names, list[j]@));
}

/// A clip that is brought in is known by the hash of its text, or of its picture; one
/// with neither counts as 0.
pub proof fn imports_are_known_by_content(c: ExportView)
    ensures
        c.content matches Some(t) ==> stored_as(c).hash == stored_hash(
            crate::hashing::content_hash(encode_utf8(t)),
        ),
        c.content is None && c.image_b64 is None ==> stored_as(c).hash == 0,
        stored_as(c).clip.kind == c.kind,
        stored_as(c).clip.content == c.content,
        stored_as(c).clip.created_at == c.created_at,
        stored_as(c).clip.width == c.width,
        stored_as(c).clip.height == c.height,
        stored_as(c).clip.pinned == (if c.pinned {
            1i64
        } else {
            0i64
        }),
{
}

/// What is brought in is added behind what was there: each clip whose hash is not there
/// yet, in order, and no other.
pub proof fn new_clips_are_added_behind(rows: Seq<StoredView>, list: Seq<ExportView>, c: ExportView)
    ensures
        brought_in(rows, Seq::empty()) == rows,
        (exists|i: int|
            0 <= i < brought_in(rows, list).len() && (#[trigger] brought_in(rows, list)[i]).hash
                == stored_as(c).hash) ==> brought_in(rows, list.push(c)) == brought_in(rows, list),
        (forall|i: int|
            0 <= i < brought_in(rows, list).len() ==> (#[trigger] brought_in(rows, list)[i]).hash
                != stored_as(c).hash) ==> brought_in(rows, list.push(c)) == brought_in(
            rows,
            list,
        ).push(stored_as(c)),
{
    assert(list.push(c).drop_last() =~= list);
}

} // verus!
