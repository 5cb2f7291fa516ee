//! Installed applications (`.desktop` files) and Steam games, as read from their
//! files.
use vstd::prelude::*;
use crate::process::{file_name, file_name_exec};
use crate::text::opt_chars;
use crate::text::{
    chars_eq, chars_of, drop_empty, drop_empty_exec, join, join_exec, lemma_chars_deep_view,
    lines, lines_exec, split, split_exec, split_whitespace, split_whitespace_exec, starts_with,
    starts_with_exec, strip_prefix, strip_prefix_exec, string_of, text, trim, trim_exec, CharSet,
};

verus! {

/// An installed application parsed from a `.desktop` file.
pub struct DesktopApp {
    pub name: String,
    pub exec_line: Option<String>,
    pub icon: Option<String>,
    pub categories: Vec<String>,
    /// Base name of the file, like "steam.desktop".
    pub filename: String,
    pub try_exec: Option<String>,
}

pub struct DesktopAppView {
    pub name: Seq<char>,
    pub exec_line: Option<Seq<char>>,
    pub icon: Option<Seq<char>>,
    pub categories: Seq<Seq<char>>,
    pub filename: Seq<char>,
    pub try_exec: Option<Seq<char>>,
}

impl View for DesktopApp {
    type V = DesktopAppView;

    open spec fn view(&self) -> DesktopAppView {
        DesktopAppView {
            name: self.name@,
            exec_line: opt_chars(self.exec_line),
            icon: opt_chars(self.icon),
            categories: self.categories.deep_view(),
            filename: self.filename@,
            try_exec: opt_chars(self.try_exec),
        }
    }
}

pub open spec fn apps_view(v: Seq<DesktopApp>) -> Seq<DesktopAppView> {
    v.map_values(|a: DesktopApp| a@)
}

/// A Steam game parsed from an `appmanifest_*.acf` file.
pub struct SteamGame {
    pub appid: String,
    pub name: String,
    pub install_dir: String,
    /// Full path to the game's install directory under `steamapps/common/`.
    pub install_path: String,
    /// The game's main `.exe` names.
    pub exes: Vec<String>,
}

pub struct SteamGameView {
    pub appid: Seq<char>,
    pub name: Seq<char>,
    pub install_dir: Seq<char>,
    pub install_path: Seq<char>,
    pub exes: Seq<Seq<char>>,
}

impl View for SteamGame {
    type V = SteamGameView;

    open spec fn view(&self) -> SteamGameView {
        SteamGameView {
            appid: self.appid@,
            name: self.name@,
            install_dir: self.install_dir@,
            install_path: self.install_path@,
            exes: self.exes.deep_view(),
        }
    }
}

pub open spec fn games_view(v: Seq<SteamGame>) -> Seq<SteamGameView> {
    v.map_values(|g: SteamGame| g@)
}

/// The executable that an `Exec=` line starts: the file name of its first word.
pub open spec fn exec_line_program(line: Seq<char>) -> Option<Seq<char>> {
    let words = split_whitespace(line);
    if words.len() == 0 {
        None
    } else {
        match file_name(words[0]) {
            Some(b) => if b.len() > 0 {
                Some(b)
            } else {
                None
            },
            None => None,
        }
    }
}

/// The executable that an `Exec=` line starts, as characters.
pub fn exec_basename_chars(line: &Vec<char>) -> (r: Option<Vec<char>>)
    ensures
        r matches Some(b) ==> exec_line_program(line@) == Some(b@),
        r is None ==> exec_line_program(line@) is None,
{
    let words = split_whitespace_exec(line);
    if words.len() == 0 {
        return None;
    }
    assert(words[0]@ == words.deep_view()[0]);
    match file_name_exec(&words[0]) {
        Some(b) => if b.len() > 0 {
            Some(b)
        } else {
            None
        },
        None => None,
    }
}

/// Extract the executable basename from an `Exec=` line.
pub fn exec_basename(exec_line: &str) -> (r: Option<String>)
    ensures
        opt_chars(r) == exec_line_program(exec_line@),
{
    match exec_basename_chars(&crate::text::chars_of(exec_line)) {
        Some(b) => Some(string_of(&b)),
        None => None,
    }
}

/// The words of `ws` that do not start with `%` (field codes such as `%f`, `%U`).
pub open spec fn without_field_codes(ws: Seq<Seq<char>>) -> Seq<Seq<char>>
    decreases ws.len(),
{
    if ws.len() == 0 {
        ws
    } else if ws.last().len() > 0 && ws.last()[0] == '%' {
        without_field_codes(ws.drop_last())
    } else {
        without_field_codes(ws.drop_last()).push(ws.last())
    }
}

/// An `Exec=` value with its field codes removed and its words joined by single
/// spaces.
pub open spec fn clean_exec(v: Seq<char>) -> Seq<char> {
    join(without_field_codes(split_whitespace(v)), " "@)
}

fn clean_exec_exec(v: &Vec<char>) -> (r: Vec<char>)
    ensures
        r@ == clean_exec(v@),
{
    let words = split_whitespace_exec(v);
    let ghost wv = words.deep_view();
    let mut kept: Vec<Vec<char>> = Vec::new();
    let n = words.len();
    let mut i: usize = 0;
    while i < n
        invariant
            n == wv.len(),
            wv == words.deep_view(),
            i <= n,
            kept.deep_view() == without_field_codes(wv.take(i as int)),
        decreases n - i,
    {
        assert(wv.take(i + 1).drop_last() =~= wv.take(i as int));
        assert(wv.take(i + 1).last() == words[i as int]@);
        let w = &words[i];
        if !(w.len() > 0 && w[0] == '%') {
            let ghost before = kept.deep_view();
            let c = w.clone();
            proof {
                lemma_chars_deep_view(c);
            }
            kept.push(c);
            assert(kept.deep_view() =~= before.push(words[i as int]@));
        }
        i = i + 1;
    }
    assert(wv.take(n as int) =~= wv);
    join_exec(&kept, &text(" "))
}

/// What has been read of a `.desktop` file so far.
pub struct DesktopRead {
    pub in_entry: bool,
    pub name: Seq<char>,
    pub exec_line: Option<Seq<char>>,
    pub icon: Option<Seq<char>>,
    pub categories: Seq<Seq<char>>,
    pub try_exec: Option<Seq<char>>,
    pub no_display: bool,
    pub terminal: bool,
}

/// One line of a `.desktop` file read: section headers switch the
/// `[Desktop Entry]` section on and off, and inside it the keys `Name`, `Exec`,
/// `Icon`, `Categories`, `TryExec`, and the flags `NoDisplay`, `Hidden` and
/// `Terminal` are taken (a later line overriding an earlier one).
pub open spec fn desktop_line(st: DesktopRead, line: Seq<char>) -> DesktopRead {
    let l = trim(line);
    if l == "[Desktop Entry]"@ {
        DesktopRead { in_entry: true, ..st }
    } else if starts_with(l, "["@) {
        DesktopRead { in_entry: false, ..st }
    } else if !st.in_entry {
        st
    } else {
        match strip_prefix(l, "Name="@) {
            Some(v) => DesktopRead { name: v, ..st },
            None => match strip_prefix(l, "Exec="@) {
                Some(v) => DesktopRead { exec_line: Some(clean_exec(v)), ..st },
                None => match strip_prefix(l, "Icon="@) {
                    Some(v) => DesktopRead { icon: Some(v), ..st },
                    None => match strip_prefix(l, "Categories="@) {
                        Some(v) => DesktopRead {
                            categories: drop_empty(split(v, CharSet::One(';'))),
                            ..st
                        },
                        None => match strip_prefix(l, "TryExec="@) {
                            Some(v) => DesktopRead { try_exec: Some(v), ..st },
                            None => if l == "NoDisplay=true"@ || l == "Hidden=true"@ {
                                DesktopRead { no_display: true, ..st }
                            } else if l == "Terminal=true"@ {
                                DesktopRead { terminal: true, ..st }
                            } else {
                                st
                            },
                        },
                    },
                },
            },
        }
    }
}

/// The lines `ls` read in order, from nothing read.
pub open spec fn desktop_lines(ls: Seq<Seq<char>>) -> DesktopRead
    decreases ls.len(),
{
    if ls.len() == 0 {
        DesktopRead {
            in_entry: false,
            name: seq![],
            exec_line: None,
            icon: None,
            categories: seq![],
            try_exec: None,
            no_display: false,
            terminal: false,
        }
    } else {
        desktop_line(desktop_lines(ls.drop_last()), ls.last())
    }
}

/// The application a `.desktop` file describes: none when it is hidden, runs in
/// a terminal, or has no name.
pub open spec fn desktop_app(content: Seq<char>, filename: Seq<char>) -> Option<DesktopAppView> {
    let st = desktop_lines(lines(content));
    if st.no_display || st.terminal || st.name.len() == 0 {
        None
    } else {
        Some(
            DesktopAppView {
                name: st.name,
                exec_line: st.exec_line,
                icon: st.icon,
                categories: st.categories,
                filename,
                try_exec: st.try_exec,
            },
        )
    }
}

fn opt_string(o: &Option<Vec<char>>) -> (r: Option<String>)
    ensures
        opt_chars(r) == match o {
            Some(v) => Some(v@),
            None => None,
        },
{
    match o {
        Some(v) => Some(string_of(v)),
        None => None,
    }
}

/// Parse the text of a `.desktop` file named `filename`.
pub fn parse_desktop_entry(content: &str, filename: &str) -> (r: Option<DesktopApp>)
    ensures
        match r {
            Some(a) => desktop_app(content@, filename@) == Some(a@),
            None => desktop_app(content@, filename@) is None,
        },
{
    let ls = lines_exec(&chars_of(content));
    let ghost lv = ls.deep_view();
    let mut in_entry = false;
    let mut name: Vec<char> = Vec::new();
    let mut exec_line: Option<Vec<char>> = None;
    let mut icon: Option<Vec<char>> = None;
    let mut categories: Vec<Vec<char>> = Vec::new();
    let mut try_exec: Option<Vec<char>> = None;
    let mut no_display = false;
    let mut terminal = false;
    let n = ls.len();
    let mut i: usize = 0;
    assert(lv.take(0) =~= Seq::<Seq<char>>::empty());
    assert(name@ =~= Seq::<char>::empty());
    assert(categories.deep_view() =~= Seq::<Seq<char>>::empty());
    while i < n
        invariant
            n == lv.len(),
            lv == ls.deep_view(),
            lv == lines(content@),
            i <= n,
            desktop_lines(lv.take(i as int)) == (DesktopRead {
                in_entry,
                name: name@,
                exec_line: match exec_line {
                    Some(v) => Some(v@),
                    None => None,
                },
                icon: match icon {
                    Some(v) => Some(v@),
                    None => None,
                },
                categories: categories.deep_view(),
                try_exec: match try_exec {
                    Some(v) => Some(v@),
                    None => None,
                },
                no_display,
                terminal,
            }),
        decreases n - i,
    {
        assert(lv.take(i + 1).drop_last() =~= lv.take(i as int));
        assert(lv.take(i + 1).last() == ls[i as int]@);
        let l = trim_exec(&ls[i]);
        if chars_eq(&l, &text("[Desktop Entry]")) {
            in_entry = true;
        } else if starts_with_exec(&l, &text("[")) {
            in_entry = false;
        } else if in_entry {
            if let Some(v) = strip_prefix_exec(&l, &text("Name=")) {
                name = v;
            } else if let Some(v) = strip_prefix_exec(&l, &text("Exec=")) {
                exec_line = Some(clean_exec_exec(&v));
            } else if let Some(v) = strip_prefix_exec(&l, &text("Icon=")) {
                icon = Some(v);
            } else if let Some(v) = strip_prefix_exec(&l, &text("Categories=")) {
                categories = drop_empty_exec(split_exec(&v, &CharSet::One(';')));
            } else if let Some(v) = strip_prefix_exec(&l, &text("TryExec=")) {
                try_exec = Some(v);
            } else if chars_eq(&l, &text("NoDisplay=true")) || chars_eq(&l, &text("Hidden=true")) {
                no_display = true;
            } else if chars_eq(&l, &text("Terminal=true")) {
                terminal = true;
            }
        }
        i = i + 1;
    }
    assert(lv.take(n as int) =~= lv);
    if no_display || terminal || name.len() == 0 {
        return None;
    }
    let mut cats: Vec<String> = Vec::new();
    let ghost cv = categories.deep_view();
    let m = categories.len();
    let mut k: usize = 0;
    while k < m
        invariant
            m == cv.len(),
            cv == categories.deep_view(),
            k <= m,
            cats.deep_view() == cv.take(k as int),
        decreases m - k,
    {
        let c = string_of(&categories[k]);
        proof {
            lemma_chars_deep_view(categories@[k as int]);
        }
        assert(c@ == cv[k as int]);
        let ghost before = cats.deep_view();
        let ghost cc = c@;
        cats.push(c);
        assert(cats.deep_view() =~= before.push(cc));
        assert(cv.take(k + 1) =~= cv.take(k as int).push(cc));
        k = k + 1;
    }
    assert(cv.take(m as int) =~= cv);
    Some(
        DesktopApp {
            name: string_of(&name),
            exec_line: opt_string(&exec_line),
            icon: opt_string(&icon),
            categories: cats,
            filename: filename.to_owned(),
            try_exec: opt_string(&try_exec),
        },
    )
}

} // verus!
