use vstd::prelude::*;
use crate::SupError;
use crate::config::LocalConfig;
use crate::config::ShellConfig;
use crate::config::folders_sorted;

verus! {

/// The mathematical content of a configuration document.
pub struct ConfigV {
    pub folders: Seq<Seq<char>>,
    pub shell_enabled: bool,
    pub history_enabled: bool,
}

impl View for LocalConfig {
    type V = ConfigV;

    open spec fn view(&self) -> ConfigV {
        ConfigV {
            folders: self.allowed_folders.deep_view(),
            shell_enabled: self.shell.enabled,
            history_enabled: self.history_enabled,
        }
    }
}

// ---------------------------------------------------------------- writing

/// How one character is written inside a JSON string: quotes and
/// backslashes carry an escape, everything else stands as itself.
pub open spec fn esc_char(c: char) -> Seq<char> {
    if c == '"' {
        seq!['\\', '"']
    } else if c == '\\' {
        seq!['\\', '\\']
    } else {
        seq![c]
    }
}

/// A whole string body, escaped.
pub open spec fn escape(v: Seq<char>) -> Seq<char>
    decreases v.len(),
{
    if v.len() == 0 {
        Seq::empty()
    } else {
        esc_char(v[0]) + escape(v.drop_first())
    }
}

/// A quoted JSON string.
pub open spec fn ser_string(v: Seq<char>) -> Seq<char> {
    seq!['"'] + escape(v) + seq!['"']
}

/// The members of the folder array, comma-separated.
pub open spec fn ser_folders(fs: Seq<Seq<char>>) -> Seq<char>
    decreases fs.len(),
{
    if fs.len() == 0 {
        Seq::empty()
    } else if fs.len() == 1 {
        ser_string(fs[0])
    } else {
        ser_string(fs[0]) + seq![','] + ser_folders(fs.drop_first())
    }
}

pub open spec fn ser_bool(b: bool) -> Seq<char> {
    if b {
        "true"@
    } else {
        "false"@
    }
}

/// The canonical (compact) text of a configuration document.  The
/// parser below also accepts the same token sequence with whitespace
/// between tokens.
pub open spec fn ser_config(c: ConfigV) -> Seq<char> {
    "{"@ + "\"allowed_folders\""@ + ":"@ + "["@ + ser_folders(c.folders) + "]"@ + ","@
        + "\"shell\""@ + ":"@ + "{"@ + "\"enabled\""@ + ":"@ + ser_bool(c.shell_enabled) + "}"@
        + ","@ + "\"history_enabled\""@ + ":"@ + ser_bool(c.history_enabled) + "}"@
}

// ---------------------------------------------------------------- reading

/// The whitespace accepted between tokens.
pub open spec fn is_ws(c: char) -> bool {
    c == ' ' || c == '\n' || c == '\t' || c == '\r'
}

/// First position at or after `i` holding a non-whitespace character.
pub open spec fn skip_ws(s: Seq<char>, i: int) -> int
    decreases s.len() - i when 0 <= i <= s.len()
{
    if i < s.len() && is_ws(s[i]) {
        skip_ws(s, i + 1)
    } else {
        i
    }
}

/// Matches one token at the next non-whitespace position; yields the
/// position just past it.
pub open spec fn tok_at(s: Seq<char>, i: int, t: Seq<char>) -> Option<int> {
    let j = skip_ws(s, i);
    if j + t.len() <= s.len() && s.subrange(j, j + t.len()) == t {
        Some(j + t.len())
    } else {
        None
    }
}

/// The character an escape stands for; only quote and backslash
/// escapes are part of the grammar.
pub open spec fn unescape(c: char) -> Option<char> {
    if c == '"' {
        Some('"')
    } else if c == '\\' {
        Some('\\')
    } else {
        None
    }
}

/// A string body starting at `i` (just past the opening quote), up to
/// and including the closing quote; yields the unescaped value.
pub open spec fn p_str(s: Seq<char>, i: int) -> Option<(Seq<char>, int)>
    decreases s.len() - i when 0 <= i <= s.len()
{
    if i >= s.len() {
        None
    } else if s[i] == '"' {
        Some((Seq::empty(), i + 1))
    } else if s[i] == '\\' {
        if i + 1 < s.len() && unescape(s[i + 1]) is Some {
            match p_str(s, i + 2) {
                Some(tj) => Some((seq![unescape(s[i + 1])->Some_0] + tj.0, tj.1)),
                None => None,
            }
        } else {
            None
        }
    } else {
        match p_str(s, i + 1) {
            Some(tj) => Some((seq![s[i]] + tj.0, tj.1)),
            None => None,
        }
    }
}

/// A parsed string body ends past where it began and inside the text.
pub proof fn lemma_p_str_bounds(s: Seq<char>, i: int)
    requires
        0 <= i <= s.len(),
    ensures
        p_str(s, i) matches Some(tj) ==> i < tj.1 <= s.len(),
    decreases s.len() - i,
{
    if i >= s.len() {
    } else if s[i] == '"' {
    } else if s[i] == '\\' {
        if i + 1 < s.len() && unescape(s[i + 1]) is Some {
            lemma_p_str_bounds(s, i + 2);
        }
    } else {
        lemma_p_str_bounds(s, i + 1);
    }
}

/// Skipping whitespace stays inside the text and lands past `i`.
pub proof fn lemma_skip_ws_bounds(s: Seq<char>, i: int)
    requires
        0 <= i <= s.len(),
    ensures
        i <= skip_ws(s, i) <= s.len(),
    decreases s.len() - i,
{
    if i < s.len() && is_ws(s[i]) {
        lemma_skip_ws_bounds(s, i + 1);
    }
}

/// The members of the folder array from `i` up to and including the
/// closing bracket.
pub open spec fn p_strings(s: Seq<char>, i: int) -> Option<(Seq<Seq<char>>, int)>
    decreases s.len() - i when 0 <= i <= s.len() via p_strings_dec
{
    let j = skip_ws(s, i);
    if j < s.len() && s[j] == ']' {
        Some((Seq::empty(), j + 1))
    } else if j < s.len() && s[j] == '"' {
        match p_str(s, j + 1) {
            Some(vk) => {
                let m = skip_ws(s, vk.1);
                if m < s.len() && s[m] == ',' {
                    match p_strings(s, m + 1) {
                        Some(we) => Some((seq![vk.0] + we.0, we.1)),
                        None => None,
                    }
                } else if m < s.len() && s[m] == ']' {
                    Some((seq![vk.0], m + 1))
                } else {
                    None
                }
            },
            None => None,
        }
    } else {
        None
    }
}

#[via_fn]
proof fn p_strings_dec(s: Seq<char>, i: int) {
    lemma_skip_ws_bounds(s, i);
    let j = skip_ws(s, i);
    if j < s.len() && s[j] != ']' && s[j] == '"' {
        lemma_p_str_bounds(s, j + 1);
        match p_str(s, j + 1) {
            Some(vk) => {
                lemma_skip_ws_bounds(s, vk.1);
            },
            None => {},
        }
    }
}

/// A boolean token.
pub open spec fn p_bool(s: Seq<char>, i: int) -> Option<(bool, int)> {
    let j = skip_ws(s, i);
    if j + 4 <= s.len() && s.subrange(j, j + 4) == "true"@ {
        Some((true, j + 4))
    } else if j + 5 <= s.len() && s.subrange(j, j + 5) == "false"@ {
        Some((false, j + 5))
    } else {
        None
    }
}

/// The whole document: the three fields in their fixed order, each
/// optional amount of whitespace between tokens, nothing after the
/// closing brace.
pub open spec fn p_config(s: Seq<char>) -> Option<ConfigV> {
    match tok_at(s, 0, "{"@) {
        None => None,
        Some(i1) => match tok_at(s, i1, "\"allowed_folders\""@) {
            None => None,
            Some(i2) => match tok_at(s, i2, ":"@) {
                None => None,
                Some(i3) => match tok_at(s, i3, "["@) {
                    None => None,
                    Some(i4) => match p_strings(s, i4) {
                        None => None,
                        Some(fsi) => match tok_at(s, fsi.1, ","@) {
                            None => None,
                            Some(i6) => match tok_at(s, i6, "\"shell\""@) {
                                None => None,
                                Some(i7) => match tok_at(s, i7, ":"@) {
                                    None => None,
                                    Some(i8) => match tok_at(s, i8, "{"@) {
                                        None => None,
                                        Some(i9) => match tok_at(s, i9, "\"enabled\""@) {
                                            None => None,
                                            Some(i10) => match tok_at(s, i10, ":"@) {
                                                None => None,
                                                Some(i11) => match p_bool(s, i11) {
                                                    None => None,
                                                    Some(shi) => p_config_tail(s, fsi.0, shi),
                                                },
                                            },
                                        },
                                    },
                                },
                            },
                        },
                    },
                },
            },
        },
    }
}

/// The document past the shell flag: closing brace of the nested
/// object, the history field, the outer closing brace, trailing
/// whitespace only.
pub open spec fn p_config_tail(s: Seq<char>, fs: Seq<Seq<char>>, shi: (bool, int)) -> Option<
    ConfigV,
> {
    match tok_at(s, shi.1, "}"@) {
        None => None,
        Some(i13) => match tok_at(s, i13, ","@) {
            None => None,
            Some(i14) => match tok_at(s, i14, "\"history_enabled\""@) {
                None => None,
                Some(i15) => match tok_at(s, i15, ":"@) {
                    None => None,
                    Some(i16) => match p_bool(s, i16) {
                        None => None,
                        Some(hii) => match tok_at(s, hii.1, "}"@) {
                            None => None,
                            Some(i18) => if 0 <= i18 <= s.len() && skip_ws(s, i18) == s.len() {
                                Some(
                                    (ConfigV {
                                        folders: fs,
                                        shell_enabled: shi.0,
                                        history_enabled: hii.0,
                                    }),
                                )
                            } else {
                                None
                            },
                        },
                    },
                },
            },
        },
    }
}

// ---------------------------------------------------------------- exec

fn is_ws_exec(c: char) -> (r: bool)
    ensures
        r == is_ws(c),
{
    c == ' ' || c == '\n' || c == '\t' || c == '\r'
}

fn skip_ws_exec(s: &str, i: usize) -> (r: usize)
    requires
        i <= s@.len(),
    ensures
        r == skip_ws(s@, i as int),
        i <= r <= s@.len(),
{
    let len = s.unicode_len();
    let mut m = i;
    while m < len && is_ws_exec(s.get_char(m))
        invariant
            i <= m <= len,
            len == s@.len(),
            skip_ws(s@, i as int) == skip_ws(s@, m as int),
        decreases len - m,
    {
        m = m + 1;
    }
    m
}

/// Whether the token `t` stands verbatim at position `j`.
fn match_at(s: &str, j: usize, t: &str) -> (r: bool)
    requires
        j <= s@.len(),
    ensures
        r == (j + t@.len() <= s@.len() && s@.subrange(j as int, j + t@.len()) == t@),
{
    let slen = s.unicode_len();
    let tlen = t.unicode_len();
    if tlen > slen - j {
        return false;
    }
    let mut k: usize = 0;
    while k < tlen
        invariant
            k <= tlen,
            j + tlen <= slen,
            slen == s@.len(),
            tlen == t@.len(),
            forall|w: int| 0 <= w < k ==> s@[j + w] == t@[w],
        decreases tlen - k,
    {
        if s.get_char(j + k) != t.get_char(k) {
            proof {
                if s@.subrange(j as int, j + t@.len()) == t@ {
                    assert(s@.subrange(j as int, j + t@.len())[k as int] == t@[k as int]);
                }
            }
            return false;
        }
        k = k + 1;
    }
    proof {
        assert(s@.subrange(j as int, j + t@.len()) =~= t@);
    }
    true
}

fn tok_at_exec(s: &str, i: usize, t: &str) -> (r: Option<usize>)
    requires
        i <= s@.len(),
    ensures
        r is Some <==> tok_at(s@, i as int, t@) is Some,
        r matches Some(j) ==> tok_at(s@, i as int, t@) == Some(j as int) && i <= j <= s@.len(),
{
    let slen = s.unicode_len();
    let j = skip_ws_exec(s, i);
    if match_at(s, j, t) {
        let tlen = t.unicode_len();
        proof {
            assert(j + tlen <= slen);
        }
        Some(j + tlen)
    } else {
        None
    }
}

fn p_str_exec(s: &str, i: usize) -> (r: Option<(String, usize)>)
    requires
        i <= s@.len(),
    ensures
        r is Some <==> p_str(s@, i as int) is Some,
        r matches Some(vj) ==> (p_str(s@, i as int) matches Some(w) && w.0 == vj.0@ && w.1
            == vj.1 as int && i < vj.1 <= s@.len()),
{
    let len = s.unicode_len();
    let mut out = String::new();
    let mut m = i;
    proof {
        assert(out@ + Seq::<char>::empty() =~= Seq::<char>::empty());
    }
    loop
        invariant
            i <= m <= len,
            len == s@.len(),
            (match p_str(s@, i as int) {
                Some(v) => p_str(s@, m as int) matches Some(w) && v.0 == out@ + w.0 && v.1 == w.1,
                None => p_str(s@, m as int) is None,
            }),
        decreases len - m,
    {
        if m >= len {
            return None;
        }
        let c = s.get_char(m);
        if c == '"' {
            proof {
                assert(p_str(s@, m as int) == Some((Seq::<char>::empty(), m + 1 as int)));
                assert(out@ + Seq::<char>::empty() =~= out@);
                lemma_p_str_bounds(s@, i as int);
            }
            return Some((out, m + 1));
        } else if c == '\\' {
            if m + 1 < len {
                let e = s.get_char(m + 1);
                if e == '"' || e == '\\' {
                    let ghost out0 = out@;
                    if e == '"' {
                        out.append("\"");
                        proof {
                            reveal_strlit("\"");
                            assert(out@ =~= out0 + seq!['"']);
                        }
                    } else {
                        out.append("\\");
                        proof {
                            reveal_strlit("\\");
                            assert(out@ =~= out0 + seq!['\\']);
                        }
                    }
                    proof {
                        assert(unescape(s@[m as int + 1]) == Some(e));
                        match p_str(s@, m + 2 as int) {
                            Some(w2) => {
                                assert(p_str(s@, m as int) == Some(
                                    (seq![e] + w2.0, w2.1),
                                ));
                                assert(out0 + (seq![e] + w2.0) =~= (out0 + seq![e]) + w2.0);
                            },
                            None => {
                                assert(p_str(s@, m as int) is None);
                            },
                        }
                    }
                    m = m + 2;
                } else {
                    return None;
                }
            } else {
                return None;
            }
        } else {
            let ghost out0 = out@;
            let piece = s.substring_char(m, m + 1);
            out.append(piece);
            proof {
                assert(piece@ =~= seq![s@[m as int]]);
                match p_str(s@, m + 1 as int) {
                    Some(w2) => {
                        assert(p_str(s@, m as int) == Some((seq![s@[m as int]] + w2.0, w2.1)));
                        assert(out0 + (seq![s@[m as int]] + w2.0) =~= (out0 + seq![s@[m as int]])
                            + w2.0);
                    },
                    None => {
                        assert(p_str(s@, m as int) is None);
                    },
                }
            }
            m = m + 1;
        }
    }
}

fn p_strings_exec(s: &str, i: usize) -> (r: Option<(Vec<String>, usize)>)
    requires
        i <= s@.len(),
    ensures
        r is Some <==> p_strings(s@, i as int) is Some,
        r matches Some(ve) ==> (p_strings(s@, i as int) matches Some(w) && w.0 == ve.0.deep_view()
            && w.1 == ve.1 as int && ve.1 <= s@.len()),
    decreases s@.len() - i,
{
    let len = s.unicode_len();
    let j = skip_ws_exec(s, i);
    if j >= len {
        return None;
    }
    let c = s.get_char(j);
    if c == ']' {
        let vs: Vec<String> = Vec::new();
        proof {
            assert(vs.deep_view() =~= Seq::<Seq<char>>::empty());
        }
        return Some((vs, j + 1));
    }
    if c != '"' {
        return None;
    }
    match p_str_exec(s, j + 1) {
        None => None,
        Some((v, k)) => {
            let m = skip_ws_exec(s, k);
            if m >= len {
                return None;
            }
            let d = s.get_char(m);
            if d == ',' {
                match p_strings_exec(s, m + 1) {
                    None => None,
                    Some((vs_rest, e)) => {
                        let ghost rest0 = vs_rest.deep_view();
                        let mut vs = vs_rest;
                        vs.insert(0, v);
                        proof {
                            assert(vs.deep_view() =~= seq![v@] + rest0);
                        }
                        Some((vs, e))
                    },
                }
            } else if d == ']' {
                let mut vs: Vec<String> = Vec::new();
                vs.push(v);
                proof {
                    assert(vs.deep_view() =~= seq![v@]);
                }
                Some((vs, m + 1))
            } else {
                None
            }
        },
    }
}

fn p_bool_exec(s: &str, i: usize) -> (r: Option<(bool, usize)>)
    requires
        i <= s@.len(),
    ensures
        r is Some <==> p_bool(s@, i as int) is Some,
        r matches Some(bj) ==> p_bool(s@, i as int) == Some((bj.0, bj.1 as int)) && bj.1
            <= s@.len(),
{
    proof {
        reveal_strlit("true");
        reveal_strlit("false");
    }
    let slen = s.unicode_len();
    let j = skip_ws_exec(s, i);
    if match_at(s, j, "true") {
        proof {
            assert(j + 4 <= slen);
        }
        Some((true, j + 4))
    } else if match_at(s, j, "false") {
        proof {
            assert(j + 5 <= slen);
            assert(s@.subrange(j as int, j + 5)[0] == s@[j as int]);
            assert(s@[j as int] == 'f');
            if j + 4 <= s@.len() && s@.subrange(j as int, j + 4) == "true"@ {
                assert(s@.subrange(j as int, j + 4)[0] == 't');
            }
        }
        Some((false, j + 5))
    } else {
        None
    }
}

/// Reads a configuration document; parse failure is surfaced, never
/// silently defaulted.
pub fn parse_config(text: &str) -> (r: Result<LocalConfig, SupError>)
    ensures
        (p_config(text@) matches Some(cv) ==> r matches Ok(c) && c@ == cv),
        p_config(text@) is None ==> (r matches Err(e) && e matches SupError::ParseError(_)),
{
    let i1 = match tok_at_exec(text, 0, "{") {
        Some(x) => x,
        None => {
            return Err(SupError::ParseError(String::from_str("expected an object")));
        },
    };
    let i2 = match tok_at_exec(text, i1, "\"allowed_folders\"") {
        Some(x) => x,
        None => {
            return Err(SupError::ParseError(String::from_str("expected allowed_folders")));
        },
    };
    let i3 = match tok_at_exec(text, i2, ":") {
        Some(x) => x,
        None => {
            return Err(SupError::ParseError(String::from_str("expected a colon")));
        },
    };
    let i4 = match tok_at_exec(text, i3, "[") {
        Some(x) => x,
        None => {
            return Err(SupError::ParseError(String::from_str("expected an array")));
        },
    };
    let (folders, i5) = match p_strings_exec(text, i4) {
        Some(x) => x,
        None => {
            return Err(SupError::ParseError(String::from_str("bad folder array")));
        },
    };
    let i6 = match tok_at_exec(text, i5, ",") {
        Some(x) => x,
        None => {
            return Err(SupError::ParseError(String::from_str("expected a comma")));
        },
    };
    let i7 = match tok_at_exec(text, i6, "\"shell\"") {
        Some(x) => x,
        None => {
            return Err(SupError::ParseError(String::from_str("expected shell")));
        },
    };
    let i8 = match tok_at_exec(text, i7, ":") {
        Some(x) => x,
        None => {
            return Err(SupError::ParseError(String::from_str("expected a colon")));
        },
    };
    let i9 = match tok_at_exec(text, i8, "{") {
        Some(x) => x,
        None => {
            return Err(SupError::ParseError(String::from_str("expected an object")));
        },
    };
    let i10 = match tok_at_exec(text, i9, "\"enabled\"") {
        Some(x) => x,
        None => {
            return Err(SupError::ParseError(String::from_str("expected enabled")));
        },
    };
    let i11 = match tok_at_exec(text, i10, ":") {
        Some(x) => x,
        None => {
            return Err(SupError::ParseError(String::from_str("expected a colon")));
        },
    };
    let (shell_on, i12) = match p_bool_exec(text, i11) {
        Some(x) => x,
        None => {
            return Err(SupError::ParseError(String::from_str("expected a boolean")));
        },
    };
    let i13 = match tok_at_exec(text, i12, "}") {
        Some(x) => x,
        None => {
            return Err(SupError::ParseError(String::from_str("expected a closing brace")));
        },
    };
    let i14 = match tok_at_exec(text, i13, ",") {
        Some(x) => x,
        None => {
            return Err(SupError::ParseError(String::from_str("expected a comma")));
        },
    };
    let i15 = match tok_at_exec(text, i14, "\"history_enabled\"") {
        Some(x) => x,
        None => {
            return Err(SupError::ParseError(String::from_str("expected history_enabled")));
        },
    };
    let i16 = match tok_at_exec(text, i15, ":") {
        Some(x) => x,
        None => {
            return Err(SupError::ParseError(String::from_str("expected a colon")));
        },
    };
    let (history_on, i17) = match p_bool_exec(text, i16) {
        Some(x) => x,
        None => {
            return Err(SupError::ParseError(String::from_str("expected a boolean")));
        },
    };
    let i18 = match tok_at_exec(text, i17, "}") {
        Some(x) => x,
        None => {
            return Err(SupError::ParseError(String::from_str("expected a closing brace")));
        },
    };
    let tail = skip_ws_exec(text, i18);
    if tail != text.unicode_len() {
        return Err(SupError::ParseError(String::from_str("text after the document")));
    }
    Ok(LocalConfig { allowed_folders: folders, shell: ShellConfig { enabled: shell_on }, history_enabled: history_on })
}

/// Reads and validates a document: the text must parse, and the
/// folder list must satisfy the stored-sorted invariant of the
/// format.
pub fn read_config(text: &str) -> (r: Result<LocalConfig, SupError>)
    ensures
        r matches Ok(c) ==> p_config(text@) == Some(c@) && c.wf(),
        r is Err ==> p_config(text@) is None || !folders_sorted(p_config(text@)->Some_0.folders),
        r matches Err(e) ==> e matches SupError::ParseError(_),
{
    match parse_config(text) {
        Ok(c) => {
            if c.folders_are_sorted() {
                proof {
                    assert(c@.folders == c.folders());
                }
                Ok(c)
            } else {
                Err(SupError::ParseError(String::from_str("allowed_folders not sorted")))
            }
        },
        Err(e) => Err(e),
    }
}

// ------------------------------------------------------------- serializing

/// One entry appended to the folder array extends its text with a
/// separator (when needed) and the quoted entry.
proof fn lemma_ser_folders_snoc(fs: Seq<Seq<char>>, f: Seq<char>)
    ensures
        ser_folders(fs.push(f)) == if fs.len() == 0 {
            ser_string(f)
        } else {
            ser_folders(fs) + seq![','] + ser_string(f)
        },
    decreases fs.len(),
{
    if fs.len() == 0 {
        assert(fs.push(f)[0] == f);
        assert(ser_folders(fs.push(f)) == ser_string(f));
    } else {
        assert(fs.push(f).drop_first() =~= fs.drop_first().push(f));
        lemma_ser_folders_snoc(fs.drop_first(), f);
        if fs.len() == 1 {
            assert(fs.drop_first().len() == 0);
            assert(ser_folders(fs.push(f)) == ser_string(fs[0]) + seq![','] + ser_string(f));
            assert(ser_folders(fs) == ser_string(fs[0]));
        } else {
            assert(ser_folders(fs.push(f)) == ser_string(fs[0]) + seq![','] + (ser_folders(
                fs.drop_first(),
            ) + seq![','] + ser_string(f)));
            assert(ser_string(fs[0]) + seq![','] + (ser_folders(fs.drop_first()) + seq![',']
                + ser_string(f)) =~= (ser_string(fs[0]) + seq![','] + ser_folders(
                fs.drop_first(),
            )) + seq![','] + ser_string(f));
        }
    }
}

/// One character appended to a string body extends its escaped text.
proof fn lemma_escape_snoc(v: Seq<char>, c: char)
    ensures
        escape(v.push(c)) == escape(v) + esc_char(c),
    decreases v.len(),
{
    if v.len() == 0 {
        assert(v.push(c)[0] == c);
        assert(v.push(c).drop_first() =~= Seq::<char>::empty());
        assert(escape(v.push(c)) == esc_char(c) + escape(Seq::<char>::empty()));
        assert(esc_char(c) + Seq::<char>::empty() =~= esc_char(c));
        assert(escape(v) + esc_char(c) =~= esc_char(c));
    } else {
        assert(v.push(c)[0] == v[0]);
        assert(v.push(c).drop_first() =~= v.drop_first().push(c));
        lemma_escape_snoc(v.drop_first(), c);
        assert(esc_char(v[0]) + (escape(v.drop_first()) + esc_char(c)) =~= (esc_char(v[0])
            + escape(v.drop_first())) + esc_char(c));
    }
}

/// Appends the escaped body of one folder entry.
fn append_escaped(out: &mut String, v: &str)
    ensures
        final(out)@ == old(out)@ + escape(v@),
{
    let len = v.unicode_len();
    let mut k: usize = 0;
    proof {
        assert(v@.take(0) =~= Seq::<char>::empty());
        assert(old(out)@ + Seq::<char>::empty() =~= old(out)@);
    }
    while k < len
        invariant
            k <= len,
            len == v@.len(),
            out@ == old(out)@ + escape(v@.take(k as int)),
        decreases len - k,
    {
        let ghost out0 = out@;
        let ch = v.get_char(k);
        if ch == '"' {
            out.append("\\\"");
            proof {
                reveal_strlit("\\\"");
                assert(out@ =~= out0 + esc_char(ch));
            }
        } else if ch == '\\' {
            out.append("\\\\");
            proof {
                reveal_strlit("\\\\");
                assert(out@ =~= out0 + esc_char(ch));
            }
        } else {
            let piece = v.substring_char(k, k + 1);
            out.append(piece);
            proof {
                assert(piece@ =~= seq![ch]);
                assert(out@ =~= out0 + esc_char(ch));
            }
        }
        proof {
            assert(v@.take(k + 1) =~= v@.take(k as int).push(v@[k as int]));
            lemma_escape_snoc(v@.take(k as int), v@[k as int]);
            assert(old(out)@ + (escape(v@.take(k as int)) + esc_char(v@[k as int])) =~= (old(out)@
                + escape(v@.take(k as int))) + esc_char(v@[k as int]));
        }
        k = k + 1;
    }
    proof {
        assert(v@.take(len as int) =~= v@);
    }
}

/// Writes the canonical text of a document; what `parse_config` reads
/// back from it is the same document (see `lemma_config_round_trip`).
pub fn config_to_json(c: &LocalConfig) -> (r: String)
    ensures
        r@ == ser_config(c@),
{
    let mut out = String::from_str("{");
    out.append("\"allowed_folders\"");
    out.append(":");
    out.append("[");
    let ghost head = "{"@ + "\"allowed_folders\""@ + ":"@ + "["@;
    let n = c.allowed_folders.len();
    let mut idx: usize = 0;
    proof {
        assert(c@.folders.take(0) =~= Seq::<Seq<char>>::empty());
        assert(out@ =~= head + ser_folders(c@.folders.take(0)));
    }
    while idx < n
        invariant
            idx <= n,
            n == c.allowed_folders.len(),
            head == "{"@ + "\"allowed_folders\""@ + ":"@ + "["@,
            out@ == head + ser_folders(c@.folders.take(idx as int)),
        decreases n - idx,
    {
        let ghost out0 = out@;
        let ghost pref = c@.folders.take(idx as int);
        if idx > 0 {
            out.append(",");
            proof {
                reveal_strlit(",");
            }
        }
        out.append("\"");
        append_escaped(&mut out, c.allowed_folders[idx].as_str());
        out.append("\"");
        proof {
            reveal_strlit("\"");
            let f = c@.folders[idx as int];
            assert(c.allowed_folders@[idx as int]@ == f);
            assert(c@.folders.take(idx + 1) =~= pref.push(f));
            lemma_ser_folders_snoc(pref, f);
            if idx > 0 {
                assert(out@ =~= out0 + seq![','] + (seq!['"'] + escape(f) + seq!['"']));
                assert(out0 + seq![','] + (seq!['"'] + escape(f) + seq!['"']) =~= head + (
                ser_folders(pref) + seq![','] + ser_string(f)));
            } else {
                assert(pref.len() == 0);
                assert(ser_folders(pref) =~= Seq::<char>::empty());
                assert(out@ =~= out0 + (seq!['"'] + escape(f) + seq!['"']));
                assert(out0 + (seq!['"'] + escape(f) + seq!['"']) =~= head + ser_string(f));
            }
        }
        idx = idx + 1;
    }
    proof {
        assert(c@.folders.take(n as int) =~= c@.folders);
    }
    out.append("]");
    out.append(",");
    out.append("\"shell\"");
    out.append(":");
    out.append("{");
    out.append("\"enabled\"");
    out.append(":");
    if c.shell.enabled {
        out.append("true");
    } else {
        out.append("false");
    }
    out.append("}");
    out.append(",");
    out.append("\"history_enabled\"");
    out.append(":");
    if c.history_enabled {
        out.append("true");
    } else {
        out.append("false");
    }
    out.append("}");
    proof {
        assert(out@ =~= ser_config(c@));
    }
    out
}

// ------------------------------------------------------------- round trip

/// Skipping whitespace is a no-op where none stands.
proof fn lemma_skip_ws_here(s: Seq<char>, i: int)
    requires
        0 <= i <= s.len(),
        i < s.len() ==> !is_ws(s[i]),
    ensures
        skip_ws(s, i) == i,
{
}

/// A token standing verbatim at `i` is found there.
proof fn lemma_tok_at_prefix(s: Seq<char>, i: int, t: Seq<char>)
    requires
        0 <= i,
        i + t.len() <= s.len(),
        s.subrange(i, i + t.len()) == t,
        t.len() > 0,
        !is_ws(t[0]),
    ensures
        tok_at(s, i, t) == Some(i + t.len()),
{
    assert(s[i] == s.subrange(i, i + t.len())[0]);
    lemma_skip_ws_here(s, i);
}

/// Reading an escaped string body back yields the original value.
proof fn lemma_p_str_ser(s: Seq<char>, i: int, v: Seq<char>)
    requires
        0 <= i,
        i + escape(v).len() + 1 <= s.len(),
        s.subrange(i, i + escape(v).len()) == escape(v),
        s[i + escape(v).len()] == '"',
    ensures
        p_str(s, i) == Some((v, i + escape(v).len() + 1)),
    decreases v.len(),
{
    if v.len() == 0 {
        assert(v =~= Seq::<char>::empty());
        assert(escape(v).len() == 0);
    } else {
        let c = v[0];
        let rest = v.drop_first();
        assert(escape(v) == esc_char(c) + escape(rest));
        let ec = esc_char(c);
        let l2 = escape(rest).len();
        assert forall|k: int| 0 <= k < escape(v).len() implies s[i + k] == escape(v)[k] by {
            assert(s.subrange(i, i + escape(v).len())[k] == s[i + k]);
        }
        if c == '"' || c == '\\' {
            assert(ec.len() == 2 && ec[0] == '\\' && ec[1] == c);
            assert(s[i] == '\\') by {
                assert(s.subrange(i, i + escape(v).len())[0] == s[i + 0]);
            }
            assert(s[i + 1] == c) by {
                assert(s.subrange(i, i + escape(v).len())[1] == s[i + 1]);
            }
            assert(unescape(c) == Some(c));
            assert(s.subrange(i + 2, i + 2 + l2) =~= escape(rest)) by {
                assert forall|k: int| 0 <= k < l2 implies s.subrange(i + 2, i + 2 + l2)[k]
                    == escape(rest)[k] by {
                    assert(s[i + 2 + k] == escape(v)[2 + k]);
                    assert(escape(v)[2 + k] == escape(rest)[k]);
                }
            }
            assert(s[i + 2 + l2] == '"');
            lemma_p_str_ser(s, i + 2, rest);
            assert(p_str(s, i) == Some((seq![c] + rest, i + 2 + l2 + 1)));
            assert(seq![c] + rest =~= v);
        } else {
            assert(ec.len() == 1 && ec[0] == c);
            assert(s[i] == c) by {
                assert(s.subrange(i, i + escape(v).len())[0] == s[i + 0]);
            }
            assert(s.subrange(i + 1, i + 1 + l2) =~= escape(rest)) by {
                assert forall|k: int| 0 <= k < l2 implies s.subrange(i + 1, i + 1 + l2)[k]
                    == escape(rest)[k] by {
                    assert(s[i + 1 + k] == escape(v)[1 + k]);
                    assert(escape(v)[1 + k] == escape(rest)[k]);
                }
            }
            assert(s[i + 1 + l2] == '"');
            lemma_p_str_ser(s, i + 1, rest);
            assert(p_str(s, i) == Some((seq![c] + rest, i + 1 + l2 + 1)));
            assert(seq![c] + rest =~= v);
        }
    }
}

/// Reading a serialized folder array back yields the original list.
proof fn lemma_p_strings_ser(s: Seq<char>, i: int, fs: Seq<Seq<char>>)
    requires
        0 <= i,
        i + ser_folders(fs).len() + 1 <= s.len(),
        s.subrange(i, i + ser_folders(fs).len()) == ser_folders(fs),
        s[i + ser_folders(fs).len()] == ']',
    ensures
        p_strings(s, i) == Some((fs, i + ser_folders(fs).len() + 1)),
    decreases fs.len(),
{
    let flen = ser_folders(fs).len();
    assert forall|k: int| 0 <= k < flen implies s[i + k] == ser_folders(fs)[k] by {
        assert(s.subrange(i, i + flen)[k] == s[i + k]);
    }
    if fs.len() == 0 {
        assert(flen == 0);
        assert(s[i] == ']');
        lemma_skip_ws_here(s, i);
        assert(p_strings(s, i) == Some((Seq::<Seq<char>>::empty(), i + 1)));
        assert(fs =~= Seq::<Seq<char>>::empty());
    } else {
        let f0 = fs[0];
        let l0 = escape(f0).len();
        assert(ser_string(f0) == seq!['"'] + escape(f0) + seq!['"']);
        assert(s[i] == '"') by {
            assert(s.subrange(i, i + flen)[0] == s[i + 0]);
        }
        lemma_skip_ws_here(s, i);
        if fs.len() == 1 {
            assert(ser_folders(fs) == ser_string(f0));
            assert(flen == l0 + 2);
            assert(s.subrange(i + 1, i + 1 + l0) =~= escape(f0)) by {
                assert forall|k: int| 0 <= k < l0 implies s.subrange(i + 1, i + 1 + l0)[k]
                    == escape(f0)[k] by {
                    assert(s[i + 1 + k] == ser_folders(fs)[1 + k]);
                    assert(ser_folders(fs)[1 + k] == escape(f0)[k]);
                }
            }
            assert(s[i + 1 + l0] == ser_folders(fs)[flen - 1]);
            assert(s[i + 1 + l0] == '"');
            lemma_p_str_ser(s, i + 1, f0);
            assert(p_str(s, i + 1) == Some((f0, i + l0 + 2)));
            assert(s[i + flen] == ']');
            lemma_skip_ws_here(s, i + l0 + 2);
            assert(p_strings(s, i) == Some((seq![f0], i + flen + 1)));
            assert(seq![f0] =~= fs);
        } else {
            let rest = fs.drop_first();
            assert(ser_folders(fs) == ser_string(f0) + seq![','] + ser_folders(rest));
            let lr = ser_folders(rest).len();
            assert(flen == l0 + 3 + lr);
            assert(s.subrange(i + 1, i + 1 + l0) =~= escape(f0)) by {
                assert forall|k: int| 0 <= k < l0 implies s.subrange(i + 1, i + 1 + l0)[k]
                    == escape(f0)[k] by {
                    assert(s[i + 1 + k] == ser_folders(fs)[1 + k]);
                    assert(ser_folders(fs)[1 + k] == escape(f0)[k]);
                }
            }
            assert(s[i + 1 + l0] == ser_folders(fs)[l0 + 1int]);
            assert(s[i + 1 + l0] == '"');
            lemma_p_str_ser(s, i + 1, f0);
            assert(p_str(s, i + 1) == Some((f0, i + l0 + 2)));
            assert(s[i + l0 + 2] == ser_folders(fs)[l0 + 2int]);
            assert(s[i + l0 + 2] == ',');
            lemma_skip_ws_here(s, i + l0 + 2);
            assert(s.subrange(i + l0 + 3, i + l0 + 3 + lr) =~= ser_folders(rest)) by {
                assert forall|k: int| 0 <= k < lr implies s.subrange(
                    i + l0 + 3,
                    i + l0 + 3 + lr,
                )[k] == ser_folders(rest)[k] by {
                    assert(s[i + l0 + 3 + k] == ser_folders(fs)[l0 + 3 + k]);
                    assert(ser_folders(fs)[l0 + 3 + k] == ser_folders(rest)[k]);
                }
            }
            assert(s[i + l0 + 3 + lr] == ']');
            lemma_p_strings_ser(s, i + l0 + 3, rest);
            assert(p_strings(s, i + l0 + 3) == Some((rest, i + flen + 1)));
            assert(p_strings(s, i) == Some((seq![f0] + rest, i + flen + 1)));
            assert(seq![f0] + rest =~= fs);
        }
    }
}

/// Reading a serialized boolean back yields the original value.
proof fn lemma_p_bool_ser(s: Seq<char>, i: int, b: bool)
    requires
        0 <= i,
        i + ser_bool(b).len() <= s.len(),
        s.subrange(i, i + ser_bool(b).len()) == ser_bool(b),
    ensures
        p_bool(s, i) == Some((b, i + ser_bool(b).len())),
{
    reveal_strlit("true");
    reveal_strlit("false");
    assert forall|k: int| 0 <= k < ser_bool(b).len() implies s[i + k] == ser_bool(b)[k] by {
        assert(s.subrange(i, i + ser_bool(b).len())[k] == s[i + k]);
    }
    if b {
        assert(s[i] == 't') by {
            assert(s.subrange(i, i + ser_bool(b).len())[0] == s[i + 0]);
        }
        lemma_skip_ws_here(s, i);
        assert(s.subrange(i, i + 4) =~= "true"@);
    } else {
        assert(s[i] == 'f') by {
            assert(s.subrange(i, i + ser_bool(b).len())[0] == s[i + 0]);
        }
        lemma_skip_ws_here(s, i);
        if i + 4 <= s.len() && s.subrange(i, i + 4) == "true"@ {
            assert(s.subrange(i, i + 4)[0] == 't');
        }
        assert(s.subrange(i, i + 5) =~= "false"@);
    }
}

/// Round trip: the text written for any document parses back to that
/// same document.  Together with the contracts of `config_to_json`
/// and `parse_config` this carries over to the executable pair.
#[verifier::rlimit(100)]
#[verifier::spinoff_prover]
pub proof fn lemma_config_round_trip(c: ConfigV)
    ensures
        p_config(ser_config(c)) == Some(c),
{
    reveal_strlit("{");
    reveal_strlit("\"allowed_folders\"");
    reveal_strlit(":");
    reveal_strlit("[");
    reveal_strlit("]");
    reveal_strlit(",");
    reveal_strlit("\"shell\"");
    reveal_strlit("\"enabled\"");
    reveal_strlit("}");
    reveal_strlit("\"history_enabled\"");
    reveal_strlit("true");
    reveal_strlit("false");
    let s = ser_config(c);
    let fl = ser_folders(c.folders).len();
    let b1 = ser_bool(c.shell_enabled).len();
    let b2 = ser_bool(c.history_enabled).len();
    let i1 = 1int;
    let i2 = i1 + 17;
    let i3 = i2 + 1;
    let i4 = i3 + 1;
    let i5 = i4 + fl + 1;
    let i6 = i5 + 1;
    let i7 = i6 + 7;
    let i8 = i7 + 1;
    let i9 = i8 + 1;
    let i10 = i9 + 9;
    let i11 = i10 + 1;
    let i12 = i11 + b1;
    let i13 = i12 + 1;
    let i14 = i13 + 1;
    let i15 = i14 + 17;
    let i16 = i15 + 1;
    let i17 = i16 + b2;
    let i18 = i17 + 1;
    assert(s.len() == i18);
    assert(s.subrange(0, i1) =~= "{"@);
    lemma_tok_at_prefix(s, 0, "{"@);
    assert(s.subrange(i1, i2) =~= "\"allowed_folders\""@);
    lemma_tok_at_prefix(s, i1, "\"allowed_folders\""@);
    assert(s.subrange(i2, i3) =~= ":"@);
    lemma_tok_at_prefix(s, i2, ":"@);
    assert(s.subrange(i3, i4) =~= "["@);
    lemma_tok_at_prefix(s, i3, "["@);
    assert(s.subrange(i4, i4 + fl) =~= ser_folders(c.folders));
    assert(s[i4 + fl] == ']');
    lemma_p_strings_ser(s, i4, c.folders);
    assert(s.subrange(i5, i6) =~= ","@);
    lemma_tok_at_prefix(s, i5, ","@);
    assert(s.subrange(i6, i7) =~= "\"shell\""@);
    lemma_tok_at_prefix(s, i6, "\"shell\""@);
    assert(s.subrange(i7, i8) =~= ":"@);
    lemma_tok_at_prefix(s, i7, ":"@);
    assert(s.subrange(i8, i9) =~= "{"@);
    lemma_tok_at_prefix(s, i8, "{"@);
    assert(s.subrange(i9, i10) =~= "\"enabled\""@);
    lemma_tok_at_prefix(s, i9, "\"enabled\""@);
    assert(s.subrange(i10, i11) =~= ":"@);
    lemma_tok_at_prefix(s, i10, ":"@);
    assert(s.subrange(i11, i12) =~= ser_bool(c.shell_enabled));
    lemma_p_bool_ser(s, i11, c.shell_enabled);
    assert(s.subrange(i12, i13) =~= "}"@);
    lemma_tok_at_prefix(s, i12, "}"@);
    assert(s.subrange(i13, i14) =~= ","@);
    lemma_tok_at_prefix(s, i13, ","@);
    assert(s.subrange(i14, i15) =~= "\"history_enabled\""@);
    lemma_tok_at_prefix(s, i14, "\"history_enabled\""@);
    assert(s.subrange(i15, i16) =~= ":"@);
    lemma_tok_at_prefix(s, i15, ":"@);
    assert(s.subrange(i16, i17) =~= ser_bool(c.history_enabled));
    lemma_p_bool_ser(s, i16, c.history_enabled);
    assert(s.subrange(i17, i18) =~= "}"@);
    lemma_tok_at_prefix(s, i17, "}"@);
    assert(skip_ws(s, i18) == i18);
    assert(p_config(s) == Some(
        (ConfigV {
            folders: c.folders,
            shell_enabled: c.shell_enabled,
            history_enabled: c.history_enabled,
        }),
    ));
    assert((ConfigV {
        folders: c.folders,
        shell_enabled: c.shell_enabled,
        history_enabled: c.history_enabled,
    }) == c);
}

} // verus!
