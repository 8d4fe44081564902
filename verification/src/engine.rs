//! The module engine's decision core: the module catalog with its category
//! filters, and the reference-key navigator's whole-module structural scan.
//! The storage collaborator that yields keys and raw entries stays outside;
//! this code works on the plain values it hands over.

use vstd::prelude::*;

use crate::model::clone_string_vec;
use crate::text::{first_colon_prefix, join_spec, join_with, parse_i32, parse_i32_spec,
    split_whitespace, split_ws, str_eq, take_before_first_colon};

verus! {

/// One installed or installable text module.
#[derive(Debug, Clone)]
pub struct SwordModule {
    pub name: String,
    pub description: String,
    pub category: String,
    pub language: String,
}

/// Mathematical model of a `SwordModule`.
pub struct SwordModuleV {
    pub name: Seq<char>,
    pub description: Seq<char>,
    pub category: Seq<char>,
    pub language: Seq<char>,
}

impl View for SwordModule {
    type V = SwordModuleV;

    open spec fn view(&self) -> SwordModuleV {
        SwordModuleV {
            name: self.name@,
            description: self.description@,
            category: self.category@,
            language: self.language@,
        }
    }
}

impl DeepView for SwordModule {
    type V = SwordModuleV;

    open spec fn deep_view(&self) -> SwordModuleV {
        self@
    }
}

/// One chapter of a module's structure: its number and verse count.
#[derive(Debug, Clone, Copy, PartialEq, Eq, Structural)]
pub struct ModuleChapter {
    pub number: i32,
    pub verse_count: i32,
}

/// One book of a module's structure.
#[derive(Debug, Clone)]
pub struct ModuleBook {
    pub name: String,
    pub chapters: Vec<ModuleChapter>,
}

/// Mathematical model of a `ModuleBook`.
pub struct ModuleBookV {
    pub name: Seq<char>,
    pub chapters: Seq<ModuleChapter>,
}

impl View for ModuleBook {
    type V = ModuleBookV;

    open spec fn view(&self) -> ModuleBookV {
        ModuleBookV { name: self.name@, chapters: self.chapters@ }
    }
}

impl DeepView for ModuleBook {
    type V = ModuleBookV;

    open spec fn deep_view(&self) -> ModuleBookV {
        self@
    }
}

/// The storage collaborator's raw handles; the engine carries them as opaque
/// integers and never follows them itself.
#[derive(Debug, Clone, Copy, PartialEq, Eq, Structural)]
pub struct SwordInner {
    pub mgr: isize,
    pub install_mgr: isize,
}

/// The engine's view of one module store: the collaborator's handles and a
/// snapshot of its module catalog, as the caller read it.
#[derive(Debug)]
pub struct SwordEngine {
    pub inner: SwordInner,
    pub modules: Vec<SwordModule>,
}

/// The modules whose category is one of `cats`, in catalog order.
pub open spec fn by_category(mods: Seq<SwordModuleV>, cats: Seq<Seq<char>>) -> Seq<SwordModuleV> {
    mods.filter(|m: SwordModuleV| cats.contains(m.category))
}

/// Copies one catalog entry.
fn clone_module(m: &SwordModule) -> (r: SwordModule)
    ensures
        r@ == m@,
{
    SwordModule {
        name: m.name.clone(),
        description: m.description.clone(),
        category: m.category.clone(),
        language: m.language.clone(),
    }
}

/// Tests whether a string is one of the listed categories.
fn category_matches(cats: &Vec<&str>, s: &str) -> (r: bool)
    ensures
        r == cats.deep_view().contains(s@),
{
    let n = cats.len();
    let mut i: usize = 0;
    while i < n
        invariant
            n == cats.len(),
            i <= n,
            forall|k: int| 0 <= k < i ==> cats.deep_view()[k] != s@,
        decreases n - i,
    {
        if str_eq(cats[i], s) {
            proof {
                assert(cats.deep_view()[i as int] == s@);
            }
            return true;
        }
        i = i + 1;
    }
    false
}

impl SwordEngine {
    /// Builds the engine over one store's handles and its module catalog.
    pub fn new(inner: SwordInner, modules: Vec<SwordModule>) -> (r: SwordEngine)
        ensures
            r.inner == inner,
            r.modules.deep_view() == modules.deep_view(),
    {
        SwordEngine { inner, modules }
    }

    /// The catalog snapshot, in order.
    pub fn get_modules(&self) -> (r: Vec<SwordModule>)
        ensures
            r.deep_view() == self.modules.deep_view(),
    {
        let n = self.modules.len();
        let mut out: Vec<SwordModule> = Vec::new();
        let mut i: usize = 0;
        while i < n
            invariant
                n == self.modules.len(),
                i <= n,
                out.deep_view() == self.modules.deep_view().subrange(0, i as int),
            decreases n - i,
        {
            let ghost dv0 = out.deep_view();
            out.push(clone_module(&self.modules[i]));
            proof {
                assert(out.deep_view() =~= dv0.push(self.modules.deep_view()[i as int]));
                assert(dv0.push(self.modules.deep_view()[i as int]) =~= self.modules.deep_view()
                    .subrange(0, i as int + 1));
            }
            i = i + 1;
        }
        proof {
            assert(self.modules.deep_view().subrange(0, n as int) =~= self.modules.deep_view());
        }
        out
    }

    /// The catalog entries whose category is one of `categories`, in order.
    pub fn get_modules_by_category(&self, categories: Vec<&str>) -> (r: Vec<SwordModule>)
        ensures
            r.deep_view() == by_category(self.modules.deep_view(), categories.deep_view()),
    {
        let all = self.get_modules();
        let ghost mv = self.modules.deep_view();
        let n = all.len();
        let mut out: Vec<SwordModule> = Vec::new();
        let mut i: usize = 0;
        proof {
            reveal(Seq::filter);
            assert(out.deep_view() =~= by_category(mv.subrange(0, 0), categories.deep_view()));
        }
        while i < n
            invariant
                n == all.len(),
                all.deep_view() == mv,
                i <= n,
                out.deep_view() == by_category(mv.subrange(0, i as int), categories.deep_view()),
            decreases n - i,
        {
            let ghost pre = mv.subrange(0, i as int);
            let ghost post = mv.subrange(0, i as int + 1);
            proof {
                reveal(Seq::filter);
                assert(post.drop_last() =~= pre);
                assert(post.last() == mv[i as int]);
            }
            if category_matches(&categories, all[i].category.as_str()) {
                let ghost dv0 = out.deep_view();
                out.push(clone_module(&all[i]));
                proof {
                    assert(out.deep_view() =~= dv0.push(mv[i as int]));
                }
            }
            i = i + 1;
        }
        proof {
            assert(mv.subrange(0, n as int) =~= mv);
        }
        out
    }

    /// The catalog's Bible text modules.
    pub fn get_bible_modules(&self) -> (r: Vec<SwordModule>)
        ensures
            r.deep_view() == by_category(
                self.modules.deep_view(),
                seq!["Biblical Texts"@, "Bibles"@],
            ),
    {
        let cats = vec!["Biblical Texts", "Bibles"];
        proof {
            assert(cats.deep_view() =~= seq!["Biblical Texts"@, "Bibles"@]);
        }
        self.get_modules_by_category(cats)
    }

    /// The catalog's commentary modules.
    pub fn get_commentary_modules(&self) -> (r: Vec<SwordModule>)
        ensures
            r.deep_view() == by_category(self.modules.deep_view(), seq!["Commentaries"@]),
    {
        let cats = vec!["Commentaries"];
        proof {
            assert(cats.deep_view() =~= seq!["Commentaries"@]);
        }
        self.get_modules_by_category(cats)
    }

    /// The catalog's lexicon and dictionary modules.
    pub fn get_dictionary_modules(&self) -> (r: Vec<SwordModule>)
        ensures
            r.deep_view() == by_category(
                self.modules.deep_view(),
                seq!["Lexicons"@, "Dictionaries"@],
            ),
    {
        let cats = vec!["Lexicons", "Dictionaries"];
        proof {
            assert(cats.deep_view() =~= seq!["Lexicons"@, "Dictionaries"@]);
        }
        self.get_modules_by_category(cats)
    }

    /// The catalog's generic book modules.
    pub fn get_book_modules(&self) -> (r: Vec<SwordModule>)
        ensures
            r.deep_view() == by_category(self.modules.deep_view(), seq!["Generic Books"@]),
    {
        let cats = vec!["Generic Books"];
        proof {
            assert(cats.deep_view() =~= seq!["Generic Books"@]);
        }
        self.get_modules_by_category(cats)
    }

    /// The catalog's image and map modules.
    pub fn get_map_modules(&self) -> (r: Vec<SwordModule>)
        ensures
            r.deep_view() == by_category(self.modules.deep_view(), seq!["Images"@, "Maps"@]),
    {
        let cats = vec!["Images", "Maps"];
        proof {
            assert(cats.deep_view() =~= seq!["Images"@, "Maps"@]);
        }
        self.get_modules_by_category(cats)
    }
}


/// The chapter number a key's final token carries: its part before the
/// first `:` read as a decimal number, 0 when that fails.
pub open spec fn chapter_number_spec(chap_part: Seq<char>) -> i32 {
    match parse_i32_spec(first_colon_prefix(chap_part)) {
        Some(v) => v,
        None => 0,
    }
}

/// The running state of the structural scan.
pub struct ScanStateV {
    pub books: Seq<ModuleBookV>,
    pub cur_book: Option<Seq<char>>,
    pub chapters: Seq<ModuleChapter>,
    pub cur_chap: i32,
    pub count: int,
}

/// The scan before any key.
pub open spec fn scan_init() -> ScanStateV {
    ScanStateV {
        books: Seq::empty(),
        cur_book: None,
        chapters: Seq::empty(),
        cur_chap: 0,
        count: 0,
    }
}

/// The open chapter appended to the chapter list, when it counted a verse.
pub open spec fn close_chapter(st: ScanStateV) -> Seq<ModuleChapter> {
    if st.count > 0 {
        st.chapters.push(ModuleChapter { number: st.cur_chap, verse_count: st.count as i32 })
    } else {
        st.chapters
    }
}

/// One key's effect on the scan. The key's last whitespace token is its
/// chapter:verse part and everything before it the book name, so books whose
/// names contain spaces keep them. A change of book or chapter number
/// flushes the open chapter (and book); a key without at least two tokens is
/// skipped.
pub open spec fn scan_step(st: ScanStateV, key: Seq<char>) -> ScanStateV {
    let parts = split_ws(key);
    if parts.len() < 2 {
        st
    } else {
        let book_part = join_spec(parts.drop_last(), " "@);
        let chapter = chapter_number_spec(parts.last());
        let st1 = if st.cur_book != Some(book_part) {
            ScanStateV {
                books: match st.cur_book {
                    Some(prev) => st.books.push(
                        ModuleBookV { name: prev, chapters: close_chapter(st) },
                    ),
                    None => st.books,
                },
                cur_book: Some(book_part),
                chapters: Seq::empty(),
                cur_chap: chapter,
                count: 0,
            }
        } else {
            st
        };
        let st2 = if chapter != st1.cur_chap {
            ScanStateV {
                books: st1.books,
                cur_book: st1.cur_book,
                chapters: close_chapter(st1),
                cur_chap: chapter,
                count: 0,
            }
        } else {
            st1
        };
        ScanStateV {
            books: st2.books,
            cur_book: st2.cur_book,
            chapters: st2.chapters,
            cur_chap: st2.cur_chap,
            count: st2.count + 1,
        }
    }
}

/// The scan's state after all keys.
pub open spec fn scan_states(keys: Seq<Seq<char>>) -> ScanStateV
    decreases keys.len(),
{
    if keys.len() == 0 {
        scan_init()
    } else {
        scan_step(scan_states(keys.drop_last()), keys.last())
    }
}

/// The final flush: after the last key, the book still open is appended with
/// its open chapter, so the last book and chapter are never dropped.
pub open spec fn flush_scan(st: ScanStateV) -> Seq<ModuleBookV> {
    match st.cur_book {
        Some(last) => st.books.push(ModuleBookV { name: last, chapters: close_chapter(st) }),
        None => st.books,
    }
}

/// The structure summary a key stream denotes.
pub open spec fn bible_structure_spec(keys: Seq<Seq<char>>) -> Seq<ModuleBookV> {
    flush_scan(scan_states(keys))
}

/// When the scan ends with a book open — any valid key occurred — that book
/// stands last in the result: the final flush loses nothing.
pub proof fn lemma_scan_final_flush(keys: Seq<Seq<char>>)
    ensures
        scan_states(keys).cur_book is Some ==> bible_structure_spec(keys).len() == scan_states(
            keys,
        ).books.len() + 1 && bible_structure_spec(keys).last().name == scan_states(
            keys,
        ).cur_book->0,
{
}

impl SwordEngine {
    /// Scans a module's key stream into its book/chapter/verse-count
    /// structure. `keys` are the keys the module's cursor yields, in order;
    /// the length bound is forced by the `i32` verse counters.
    pub fn get_bible_structure(keys: &Vec<String>) -> (books: Vec<ModuleBook>)
        requires
            keys@.len() <= i32::MAX,
        ensures
            books.deep_view() == bible_structure_spec(keys.deep_view()),
    {
        let ghost kv = keys.deep_view();
        let n = keys.len();
        let mut books: Vec<ModuleBook> = Vec::new();
        let mut cur_book: Option<String> = None;
        let mut chapters: Vec<ModuleChapter> = Vec::new();
        let mut cur_chap: i32 = 0;
        let mut count: i32 = 0;
        let mut i: usize = 0;
        proof {
            assert(kv.take(0) =~= Seq::<Seq<char>>::empty());
            assert(books.deep_view() =~= scan_states(kv.take(0)).books);
            assert(chapters@ =~= scan_states(kv.take(0)).chapters);
        }
        while i < n
            invariant
                n == keys.len(),
                n <= i32::MAX,
                kv == keys.deep_view(),
                i <= n,
                0 <= count <= i,
                books.deep_view() == scan_states(kv.take(i as int)).books,
                (match cur_book {
                    Some(ref b) => scan_states(kv.take(i as int)).cur_book == Some(b@),
                    None => scan_states(kv.take(i as int)).cur_book is None,
                }),
                chapters@ == scan_states(kv.take(i as int)).chapters,
                cur_chap == scan_states(kv.take(i as int)).cur_chap,
                count as int == scan_states(kv.take(i as int)).count,
            decreases n - i,
        {
            let ghost st = scan_states(kv.take(i as int));
            let ghost st2 = scan_step(st, kv[i as int]);
            proof {
                assert(kv.take(i as int + 1).drop_last() =~= kv.take(i as int));
                assert(kv.take(i as int + 1).last() == kv[i as int]);
                assert(keys[i as int]@ == kv[i as int]);
                assert(scan_states(kv.take(i as int + 1)) == st2);
            }
            let parts = split_whitespace(keys[i].as_str());
            if parts.len() >= 2 {
                let mut head = clone_string_vec(&parts);
                let ghost hdv = head.deep_view();
                let last_piece = head.pop();
                proof {
                    assert(head.deep_view() =~= hdv.drop_last());
                }
                let book = join_with(&head, " ");
                let chap_token = &parts[parts.len() - 1];
                let cp = take_before_first_colon(chap_token.as_str());
                let chapter: i32 = match parse_i32(cp.as_str()) {
                    Some(v) => v,
                    None => 0,
                };
                proof {
                    assert(book@ == join_spec(split_ws(kv[i as int]).drop_last(), " "@));
                    assert(chapter == chapter_number_spec(split_ws(kv[i as int]).last()));
                }
                let changed = match &cur_book {
                    None => true,
                    Some(pb) => !str_eq(pb.as_str(), book.as_str()),
                };
                if changed {
                    let prev_opt = cur_book;
                    match prev_opt {
                        Some(prev) => {
                            if count > 0 {
                                chapters.push(
                                    ModuleChapter { number: cur_chap, verse_count: count },
                                );
                            }
                            proof {
                                assert(chapters@ == close_chapter(st));
                            }
                            let finished_book = ModuleBook { name: prev, chapters };
                            let ghost bdv0 = books.deep_view();
                            proof {
                                assert(finished_book@ == ModuleBookV {
                                    name: st.cur_book->0,
                                    chapters: close_chapter(st),
                                });
                            }
                            books.push(finished_book);
                            proof {
                                assert(books.deep_view() =~= bdv0.push(
                                    ModuleBookV { name: st.cur_book->0, chapters: close_chapter(st) },
                                ));
                            }
                            chapters = Vec::new();
                        },
                        None => {
                            chapters.clear();
                        },
                    }
                    cur_book = Some(book);
                    cur_chap = chapter;
                    count = 0;
                    proof {
                        assert(chapters@ =~= Seq::<ModuleChapter>::empty());
                    }
                }
                if chapter != cur_chap {
                    if count > 0 {
                        chapters.push(ModuleChapter { number: cur_chap, verse_count: count });
                    }
                    cur_chap = chapter;
                    count = 0;
                }
                count = count + 1;
            }
            i = i + 1;
        }
        proof {
            assert(kv.take(n as int) =~= kv);
        }
        let ghost st = scan_states(kv);
        match cur_book {
            Some(last) => {
                if count > 0 {
                    chapters.push(ModuleChapter { number: cur_chap, verse_count: count });
                }
                proof {
                    assert(chapters@ == close_chapter(st));
                }
                let finished_book = ModuleBook { name: last, chapters };
                let ghost bdv0 = books.deep_view();
                proof {
                    assert(finished_book@ == ModuleBookV {
                        name: st.cur_book->0,
                        chapters: close_chapter(st),
                    });
                }
                books.push(finished_book);
                proof {
                    assert(books.deep_view() =~= bdv0.push(
                        ModuleBookV { name: st.cur_book->0, chapters: close_chapter(st) },
                    ));
                }
            },
            None => {},
        }
        books
    }
}

} // verus!
