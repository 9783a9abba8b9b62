//! The desktop autostart entry: where it lives, what it says, and which entry the
//! launcher may remove (only one it wrote itself).

use vstd::prelude::*;
use vstd::utf8::encode_utf8;
use crate::text::{chars_of, lossy_chars, lossy_text, push_char, push_str, string_from_chars};
use crate::wire::{lines_of, split_lines};

verus! {

/// The entry's file name.
pub open spec fn file_name() -> Seq<char> {
    "io.github.ethanbird.RuyiSeek.desktop"@
}

/// The line that marks an entry as written by the launcher.
pub open spec fn managed_marker() -> Seq<char> {
    "X-RuyiSeek-Managed=true"@
}

/// Where the entry lives under the configuration directory.
pub fn default_path(config_home: &Vec<u8>) -> (p: Vec<u8>)
    ensures
        p@ == crate::ipc::join_relative(
            crate::ipc::join_relative(config_home@, encode_utf8("autostart"@)),
            encode_utf8(file_name()),
        ),
{
    let dir = crate::config::join_path(config_home, "autostart");
    crate::config::join_path(&dir, "io.github.ethanbird.RuyiSeek.desktop")
}

/// One character of an `Exec` argument: quotes, backquotes, dollars and backslashes
/// get a backslash; a percent sign is doubled.
pub open spec fn escape_exec_char(c: char) -> Seq<char> {
    if c == '"' || c == '`' || c == '$' || c == '\\' {
        seq!['\\', c]
    } else if c == '%' {
        seq!['%', '%']
    } else {
        seq![c]
    }
}

pub open spec fn escape_exec_chars(s: Seq<char>) -> Seq<char>
    decreases s.len(),
{
    if s.len() == 0 {
        seq![]
    } else {
        escape_exec_chars(s.drop_last()) + escape_exec_char(s.last())
    }
}

/// A quoted `Exec` argument of a desktop entry.
pub fn escape_exec_argument(value: &str) -> (quoted: String)
    ensures
        quoted@ == seq!['"'] + escape_exec_chars(value@) + seq!['"'],
{
    let chars = chars_of(value);
    let mut out = String::new();
    push_char(&mut out, '"');
    let mut i: usize = 0;
    while i < chars.len()
        invariant
            i <= chars.len(),
            out@ == seq!['"'] + escape_exec_chars(chars@.take(i as int)),
        decreases chars.len() - i,
    {
        let c = chars[i];
        if c == '"' || c == '`' || c == '$' || c == '\\' {
            push_char(&mut out, '\\');
            push_char(&mut out, c);
        } else if c == '%' {
            push_char(&mut out, '%');
            push_char(&mut out, '%');
        } else {
            push_char(&mut out, c);
        }
        proof {
            let t = chars@.take(i + 1);
            assert(t.drop_last() == chars@.take(i as int));
            assert(t.last() == c);
        }
        assert(out@ =~= seq!['"'] + escape_exec_chars(chars@.take(i + 1)));
        i += 1;
    }
    assert(chars@.take(chars.len() as int) == chars@);
    push_char(&mut out, '"');
    out
}

/// The text of the entry for a launcher at `executable`: it starts the launcher in the
/// background and carries the marker line.
pub open spec fn desktop_entry_text(executable: Seq<u8>) -> Seq<char> {
    "[Desktop Entry]\nType=Application\nVersion=1.0\nName=如意寻\nComment=本地文件搜索与全局启动器\nExec="@ + (
    seq!['"'] + escape_exec_chars(lossy_text(executable)) + seq!['"']) + " --background\nIcon=system-search\nTerminal=false\nCategories=Utility;FileTools;\nOnlyShowIn=Deepin;\n"@
        + managed_marker() + "\n"@
}

pub fn desktop_entry(executable: &[u8]) -> (text: String)
    ensures
        text@ == desktop_entry_text(executable@),
{
    let shown = lossy_chars(executable);
    let shown_text = string_from_chars(&shown);
    let quoted = escape_exec_argument(shown_text.as_str());
    let mut text = String::new();
    push_str(
        &mut text,
        "[Desktop Entry]\nType=Application\nVersion=1.0\nName=如意寻\nComment=本地文件搜索与全局启动器\nExec=",
    );
    push_str(&mut text, quoted.as_str());
    push_str(
        &mut text,
        " --background\nIcon=system-search\nTerminal=false\nCategories=Utility;FileTools;\nOnlyShowIn=Deepin;\n",
    );
    push_str(&mut text, "X-RuyiSeek-Managed=true");
    push_str(&mut text, "\n");
    text
}

/// An entry is the launcher's own when one of its lines is exactly the marker.
pub open spec fn is_managed(source: Seq<char>) -> bool {
    lines_of(encode_utf8(source)).contains(encode_utf8(managed_marker()))
}

/// Whether an existing entry may be removed: only the launcher's own.
pub fn is_managed_entry(source: &str) -> (r: bool)
    ensures
        r == is_managed(source@),
{
    let bytes = crate::text::bytes_of(source);
    let lines = split_lines(bytes.as_slice());
    let marker = crate::text::bytes_of("X-RuyiSeek-Managed=true");
    let ghost views = lines@.map_values(|l: Vec<u8>| l@);
    let mut i: usize = 0;
    while i < lines.len()
        invariant
            i <= lines@.len(),
            views == lines@.map_values(|l: Vec<u8>| l@),
            views == lines_of(bytes@),
            marker@ == encode_utf8(managed_marker()),
            bytes@ == encode_utf8(source@),
            forall|k: int| 0 <= k < i ==> views[k] != marker@,
        decreases lines.len() - i,
    {
        assert(views[i as int] == lines@[i as int]@);
        if crate::text::same_elements_bytes(lines[i].as_slice(), marker.as_slice()) {
            assert(views[i as int] == marker@);
            assert(views.contains(marker@));
            assert(bytes@ == encode_utf8(source@));
            return true;
        }
        i += 1;
    }
    false
}

proof fn lemma_encode_concat(a: Seq<char>, b: Seq<char>)
    ensures
        encode_utf8(a + b) == encode_utf8(a) + encode_utf8(b),
    decreases a.len(),
{
    if a.len() > 0 {
        lemma_encode_concat(a.drop_first(), b);
        assert((a + b).drop_first() =~= a.drop_first() + b);
        assert((a + b)[0] == a[0]);
    } else {
        assert(a + b =~= b);
    }
}

proof fn lemma_ascii_line_free(s: Seq<char>)
    requires
        vstd::utf8::is_ascii_chars(s),
        !s.contains('\n'),
        !s.contains('\r'),
    ensures
        !encode_utf8(s).contains(0x0Au8),
        !encode_utf8(s).contains(0x0Du8),
{
    vstd::utf8::is_ascii_chars_encode_utf8(s);
    let b = encode_utf8(s);
    assert forall|c: u8| c == 0x0A || c == 0x0D implies !b.contains(c) by {
        if b.contains(c) {
            let i = choose|i: int| 0 <= i < b.len() && b[i] == c;
            assert(s[i] as u8 == c);
            assert(s[i] == '\n' || s[i] == '\r');
            assert(s.contains(s[i]));
        }
    }
}

/// The UTF-8 bytes of one character hold an ASCII byte only where the character is
/// that ASCII character.
proof fn lemma_scalar_avoids(v: u32, w: u32)
    requires
        vstd::utf8::is_scalar(v),
        w < 0x80,
        v != w,
    ensures
        !vstd::utf8::encode_scalar(v).contains(w as u8),
{
    let e = vstd::utf8::encode_scalar(v);
    assert(vstd::utf8::has_width_1_encoding(v) ==> vstd::utf8::leading_byte_width_1(v) != w as u8)
        by (bit_vector)
        requires
            w < 0x80,
            v != w,
    ;
    assert(vstd::utf8::leading_byte_width_2(v) >= 0x80) by (bit_vector);
    assert(vstd::utf8::leading_byte_width_3(v) >= 0x80) by (bit_vector);
    assert(vstd::utf8::leading_byte_width_4(v) >= 0x80) by (bit_vector);
    assert(vstd::utf8::last_continuation_byte(v) >= 0x80) by (bit_vector);
    assert(vstd::utf8::second_last_continuation_byte(v) >= 0x80) by (bit_vector);
    assert(vstd::utf8::third_last_continuation_byte(v) >= 0x80) by (bit_vector);
    assert forall|i: int| 0 <= i < e.len() implies e[i] != w as u8 by {}
}

/// Text without a given ASCII character encodes to bytes without that byte.
proof fn lemma_encode_avoids(s: Seq<char>, c: char)
    requires
        (c as u32) < 0x80,
        !s.contains(c),
    ensures
        !encode_utf8(s).contains(c as u8),
    decreases s.len(),
{
    if s.len() > 0 {
        assert(s[0] != c) by {
            assert(s.contains(s[0]));
        }
        vstd::utf8::char_is_scalar(s[0]);
        assert(s[0] as u32 != c as u32) by {
            vstd::utf8::char_u32_cast(s[0], s[0] as u32);
            vstd::utf8::char_u32_cast(c, c as u32);
        }
        lemma_scalar_avoids(s[0] as u32, c as u32);
        assert(!s.drop_first().contains(c)) by {
            if s.drop_first().contains(c) {
                let i = choose|i: int| 0 <= i < s.len() - 1 && s.drop_first()[i] == c;
                assert(s[i + 1] == c);
            }
        }
        lemma_encode_avoids(s.drop_first(), c);
        let e = encode_utf8(s);
        let h = vstd::utf8::encode_scalar(s[0] as u32);
        let t = encode_utf8(s.drop_first());
        assert(e == h + t);
        assert forall|i: int| 0 <= i < e.len() implies e[i] != c as u8 by {
            if i < h.len() {
                assert(e[i] == h[i]);
                assert(h.contains(h[i]));
            } else {
                assert(e[i] == t[i - h.len()]);
                assert(t.contains(t[i - h.len()]));
            }
        }
    }
}

/// Escaping adds only backslashes and percent signs: any other character is in the
/// escaped text only where it was in the text.
proof fn lemma_escape_avoids(s: Seq<char>, c: char)
    requires
        c != '\\',
        c != '%',
        !s.contains(c),
    ensures
        !escape_exec_chars(s).contains(c),
    decreases s.len(),
{
    if s.len() > 0 {
        let init = s.drop_last();
        assert(!init.contains(c)) by {
            if init.contains(c) {
                let i = choose|i: int| 0 <= i < init.len() && init[i] == c;
                assert(s[i] == c);
            }
        }
        lemma_escape_avoids(init, c);
        assert(s.last() != c) by {
            assert(s.contains(s[s.len() - 1]));
        }
        let a = escape_exec_chars(init);
        let b = escape_exec_char(s.last());
        assert(!b.contains(c));
        let e = escape_exec_chars(s);
        assert(e == a + b);
        assert forall|i: int| 0 <= i < e.len() implies e[i] != c by {
            if i < a.len() {
                assert(e[i] == a[i]);
                assert(a.contains(a[i]));
            } else {
                assert(e[i] == b[i - a.len()]);
                assert(b.contains(b[i - a.len()]));
            }
        }
    }
}

/// Lines of text, each followed by a line feed.
pub open spec fn lf_joined(lines: Seq<Seq<u8>>) -> Seq<u8>
    decreases lines.len(),
{
    if lines.len() == 0 {
        seq![]
    } else {
        lf_joined(lines.drop_last()) + lines.last().push(0x0Au8)
    }
}

/// Lines of characters, each followed by a line feed.
pub open spec fn lf_joined_chars(lines: Seq<Seq<char>>) -> Seq<char>
    decreases lines.len(),
{
    if lines.len() == 0 {
        seq![]
    } else {
        lf_joined_chars(lines.drop_last()) + lines.last().push('\n')
    }
}

proof fn lemma_encode_joined(lines: Seq<Seq<char>>)
    ensures
        encode_utf8(lf_joined_chars(lines)) == lf_joined(lines.map_values(|l: Seq<char>| encode_utf8(l))),
    decreases lines.len(),
{
    if lines.len() > 0 {
        let init = lines.drop_last();
        lemma_encode_joined(init);
        assert(lines.map_values(|l: Seq<char>| encode_utf8(l)).drop_last() == init.map_values(
            |l: Seq<char>| encode_utf8(l),
        ));
        let l = lines.last();
        lemma_encode_concat(lf_joined_chars(init), l.push('\n'));
        assert(l.push('\n') == l + seq!['\n']);
        lemma_encode_concat(l, seq!['\n']);
        vstd::utf8::is_ascii_chars_encode_utf8(seq!['\n']);
        assert(encode_utf8(seq!['\n']) =~= seq![0x0Au8]);
        assert(encode_utf8(l) + seq![0x0Au8] == encode_utf8(l).push(0x0Au8));
    }
}

/// Text made of lines that hold no line feed and do not end with a carriage return,
/// each followed by a line feed, reads back as exactly those lines.
proof fn lemma_lines_of_joined(lines: Seq<Seq<u8>>)
    requires
        lines.len() > 0,
        forall|i: int|
            0 <= i < lines.len() ==> !(#[trigger] lines[i]).contains(0x0Au8) && (lines[i].len() == 0
                || lines[i].last() != 0x0Du8),
    ensures
        crate::text::split_on(lf_joined(lines), 0x0Au8) == lines.push(Seq::<u8>::empty()),
        lines_of(lf_joined(lines)) == lines,
    decreases lines.len(),
{
    let l = lines.last();
    let init = lines.drop_last();
    assert(!l.contains(0x0Au8)) by {
        assert(lines[lines.len() - 1] == l);
    }
    if lines.len() == 1 {
        assert(init.len() == 0);
        assert(lf_joined(lines) == l.push(0x0Au8)) by {
            assert(lf_joined(init) =~= Seq::<u8>::empty());
        }
        crate::wire::lemma_split_no_sep(l, 0x0Au8);
        crate::wire::lemma_split_append(l, 0x0Au8, Seq::<u8>::empty());
        assert(l.push(0x0Au8) + Seq::<u8>::empty() == l.push(0x0Au8));
        assert(seq![l].push(Seq::<u8>::empty()) =~= lines.push(Seq::<u8>::empty()));
    } else {
        assert forall|i: int| 0 <= i < init.len() implies !(#[trigger] init[i]).contains(0x0Au8) && (
        init[i].len() == 0 || init[i].last() != 0x0Du8) by {
            assert(init[i] == lines[i]);
        }
        lemma_lines_of_joined(init);
        let j = lf_joined(init);
        // `j` ends with a line feed: it is `j2` then a line feed.
        let prev = init.last();
        let j2 = lf_joined(init.drop_last()) + prev;
        assert(j == j2.push(0x0Au8));
        crate::wire::lemma_split_append(j2, 0x0Au8, Seq::<u8>::empty());
        assert(j2.push(0x0Au8) + Seq::<u8>::empty() == j2.push(0x0Au8));
        assert(crate::text::split_on(j2, 0x0Au8) == init) by {
            assert(crate::text::split_on(j, 0x0Au8) == crate::text::split_on(j2, 0x0Au8).push(Seq::<u8>::empty()));
            assert(crate::text::split_on(j2, 0x0Au8) == crate::text::split_on(j, 0x0Au8).drop_last());
        }
        crate::wire::lemma_split_append(j2, 0x0Au8, l);
        let k = j2.push(0x0Au8) + l;
        assert(lf_joined(lines) == k.push(0x0Au8)) by {
            assert(lf_joined(lines) == j + l.push(0x0Au8));
        }
        crate::wire::lemma_split_append(k, 0x0Au8, Seq::<u8>::empty());
        assert(k.push(0x0Au8) + Seq::<u8>::empty() == k.push(0x0Au8));
        assert(init.push(l) == lines);
    }
    let p = crate::text::split_on(lf_joined(lines), 0x0Au8);
    let n = p.len();
    assert(p.take(n - 1) == lines);
    assert(p.take(n - 1).map_values(|x: Seq<u8>| crate::wire::strip_cr(x)) =~= lines) by {
        assert forall|i: int| 0 <= i < lines.len() implies crate::wire::strip_cr(#[trigger] lines[i]) == lines[i] by {}
    }
}

/// The entry the launcher writes is recognized as its own, whatever the executable's
/// path: so turning autostart off removes what turning it on wrote.
pub proof fn lemma_written_entry_is_managed(executable: Seq<u8>)
    ensures
        is_managed(desktop_entry_text(executable)),
{
    let quoted = seq!['"'] + escape_exec_chars(lossy_text(executable)) + seq!['"'];
    let front = "[Desktop Entry]\nType=Application\nVersion=1.0\nName=如意寻\nComment=本地文件搜索与全局启动器\nExec="@;
    let tail = " --background\nIcon=system-search\nTerminal=false\nCategories=Utility;FileTools;\nOnlyShowIn=Deepin;\n"@;
    let nl = "\n"@;
    let m = managed_marker();
    reveal_strlit(" --background\nIcon=system-search\nTerminal=false\nCategories=Utility;FileTools;\nOnlyShowIn=Deepin;\n");
    reveal_strlit("\n");
    reveal_strlit("X-RuyiSeek-Managed=true");
    let head = front + quoted + tail;
    assert(desktop_entry_text(executable) == head + m + nl);
    // The head ends with a line break.
    assert(head.last() == '\n');
    let body = head.drop_last();
    assert(head =~= body + seq!['\n']);
    assert(nl =~= seq!['\n']);
    vstd::utf8::is_ascii_chars_encode_utf8(seq!['\n']);
    let lf = encode_utf8(seq!['\n']);
    assert(lf =~= seq![0x0Au8]);
    lemma_encode_concat(body, seq!['\n']);
    lemma_encode_concat(head, m);
    lemma_encode_concat(head + m, nl);
    let a = encode_utf8(body);
    let mb = encode_utf8(m);
    assert(vstd::utf8::is_ascii_chars(m));
    assert(!m.contains('\n') && !m.contains('\r')) by {
        if m.contains('\n') || m.contains('\r') {
            let i = choose|i: int| 0 <= i < m.len() && (m[i] == '\n' || m[i] == '\r');
        }
    }
    lemma_ascii_line_free(m);
    let bytes = encode_utf8(desktop_entry_text(executable));
    assert(bytes =~= (a.push(0x0Au8) + mb).push(0x0Au8));
    crate::wire::lemma_split_append(a, 0x0Au8, mb);
    crate::wire::lemma_split_append(a.push(0x0Au8) + mb, 0x0Au8, Seq::<u8>::empty());
    assert((a.push(0x0Au8) + mb).push(0x0Au8) =~= (a.push(0x0Au8) + mb).push(0x0Au8) + Seq::<u8>::empty());
    let p = crate::text::split_on(bytes, 0x0Au8);
    assert(p == crate::text::split_on(a, 0x0Au8).push(mb).push(Seq::<u8>::empty()));
    let n = p.len();
    assert(p[n - 2] == mb);
    assert(crate::wire::strip_cr(mb) == mb) by {
        if mb.len() > 0 && mb.last() == 0x0D {
            assert(mb.contains(mb[mb.len() - 1]));
        }
    }
    let lines = lines_of(bytes);
    assert(lines[n - 2] == mb);
}

/// The lines of the entry for a launcher at `executable`, each without its line break:
/// the group header, then one fixed key per line, the background `Exec` line among
/// them, and the marker last.
pub open spec fn entry_lines(executable: Seq<u8>) -> Seq<Seq<char>> {
    seq![
        "[Desktop Entry]"@,
        "Type=Application"@,
        "Version=1.0"@,
        "Name=如意寻"@,
        "Comment=本地文件搜索与全局启动器"@,
        "Exec="@ + (seq!['"'] + escape_exec_chars(lossy_text(executable)) + seq!['"'])
            + " --background"@,
        "Icon=system-search"@,
        "Terminal=false"@,
        "Categories=Utility;FileTools;"@,
        "OnlyShowIn=Deepin;"@,
        managed_marker(),
    ]
}

/// A line that holds neither a line feed nor a carriage return.
pub open spec fn single_line(l: Seq<char>) -> bool {
    !l.contains('\n') && !l.contains('\r')
}

/// The entry the launcher writes reads back as exactly its fixed lines, in order, for
/// any executable path without a line break: no line hides the entry or switches
/// autostart off, so the session starts the launcher at login.
pub proof fn lemma_written_entry_lines(executable: Seq<u8>)
    requires
        !lossy_text(executable).contains('\n'),
    ensures
        lines_of(encode_utf8(desktop_entry_text(executable))) == entry_lines(executable).map_values(
            |l: Seq<char>| encode_utf8(l),
        ),
        entry_lines(executable).len() == 11,
        forall|i: int|
            0 <= i < entry_lines(executable).len() ==> !crate::text::starts_with(
                #[trigger] entry_lines(executable)[i],
                "Hidden="@,
            ) && !crate::text::starts_with(entry_lines(executable)[i], "X-GNOME-Autostart-enabled="@),
{
    reveal_strlit("[Desktop Entry]\nType=Application\nVersion=1.0\nName=如意寻\nComment=本地文件搜索与全局启动器\nExec=");
    reveal_strlit(" --background\nIcon=system-search\nTerminal=false\nCategories=Utility;FileTools;\nOnlyShowIn=Deepin;\n");
    reveal_strlit("\n");
    reveal_strlit("X-RuyiSeek-Managed=true");
    reveal_strlit("[Desktop Entry]");
    reveal_strlit("Type=Application");
    reveal_strlit("Version=1.0");
    reveal_strlit("Name=如意寻");
    reveal_strlit("Comment=本地文件搜索与全局启动器");
    reveal_strlit("Exec=");
    reveal_strlit(" --background");
    reveal_strlit("Icon=system-search");
    reveal_strlit("Terminal=false");
    reveal_strlit("Categories=Utility;FileTools;");
    reveal_strlit("OnlyShowIn=Deepin;");
    reveal_strlit("Hidden=");
    reveal_strlit("X-GNOME-Autostart-enabled=");
    let ls = entry_lines(executable);
    let text = desktop_entry_text(executable);
    assert(text =~= lf_joined_chars(ls)) by {
        reveal_with_fuel(lf_joined_chars, 12);
    }
    lemma_encode_joined(ls);
    let bl = ls.map_values(|l: Seq<char>| encode_utf8(l));
    let quoted = seq!['"'] + escape_exec_chars(lossy_text(executable)) + seq!['"'];
    let exec_head = "Exec="@ + quoted;
    let bg = " --background"@;
    assert(ls[5] == exec_head + bg);
    assert(!exec_head.contains('\n')) by {
        lemma_escape_avoids(lossy_text(executable), '\n');
        if exec_head.contains('\n') {
            let k = choose|k: int| 0 <= k < exec_head.len() && exec_head[k] == '\n';
            if 6 <= k < quoted.len() + 4 {
                assert(escape_exec_chars(lossy_text(executable))[k - 6] == '\n');
            }
        }
    }
    assert(single_line(ls[0]));
    assert(single_line(ls[1]));
    assert(single_line(ls[2]));
    assert(single_line(ls[3]));
    assert(single_line(ls[4]));
    assert(single_line(ls[6]));
    assert(single_line(ls[7]));
    assert(single_line(ls[8]));
    assert(single_line(ls[9]));
    assert(single_line(ls[10]));
    assert forall|i: int| 0 <= i < bl.len() implies !(#[trigger] bl[i]).contains(0x0Au8) && (bl[i].len()
        == 0 || bl[i].last() != 0x0Du8) by {
        assert(bl[i] == encode_utf8(ls[i]));
        if i == 5 {
            assert(!ls[5].contains('\n')) by {
                if ls[5].contains('\n') {
                    let k = choose|k: int| 0 <= k < ls[5].len() && ls[5][k] == '\n';
                    if k < exec_head.len() {
                        assert(exec_head[k] == '\n');
                    }
                }
            }
            lemma_encode_avoids(ls[5], '\n');
            lemma_encode_concat(exec_head, bg);
            vstd::utf8::is_ascii_chars_encode_utf8(bg);
            assert(encode_utf8(bg).last() == 'd' as u8);
        } else {
            lemma_encode_avoids(ls[i], '\n');
            lemma_encode_avoids(ls[i], '\r');
            if bl[i].len() > 0 {
                assert(bl[i].contains(bl[i][bl[i].len() - 1]));
            }
        }
    }
    lemma_lines_of_joined(bl);
    assert forall|i: int| 0 <= i < ls.len() implies !crate::text::starts_with(
        #[trigger] ls[i],
        "Hidden="@,
    ) && !crate::text::starts_with(ls[i], "X-GNOME-Autostart-enabled="@) by {
        let l = ls[i];
        if crate::text::starts_with(l, "Hidden="@) {
            assert(l.take(7)[0] == l[0]);
            assert(l[0] == 'H');
            assert(ls[0][0] == '[' && ls[1][0] == 'T' && ls[2][0] == 'V' && ls[3][0] == 'N');
            assert(ls[4][0] == 'C' && ls[5][0] == 'E' && ls[6][0] == 'I' && ls[7][0] == 'T');
            assert(ls[8][0] == 'C' && ls[9][0] == 'O' && ls[10][0] == 'X');
        }
        if crate::text::starts_with(l, "X-GNOME-Autostart-enabled="@) {
            assert(l.take(26)[0] == l[0] && l.take(26)[2] == l[2]);
            assert(l[0] == 'X' && l[2] == 'G');
            assert(ls[0][0] == '[' && ls[1][0] == 'T' && ls[2][0] == 'V' && ls[3][0] == 'N');
            assert(ls[4][0] == 'C' && ls[5][0] == 'E' && ls[6][0] == 'I' && ls[7][0] == 'T');
            assert(ls[8][0] == 'C' && ls[9][0] == 'O' && ls[10][2] == 'R');
        }
    }
}

} // verus!
