//! The state machine that follows which regions are open.

use vstd::prelude::*;
use crate::compiling::lexing::reader::{ReadMode, Reader, window_of};
use crate::compiling_rules::region::{
    Region,
    RegionMap,
    effective_interp,
    lemma_children_listed,
    lemma_lookup_listed,
    lookup,
    preorder,
    reference_resolves,
};
use crate::compiling_rules::rules::Rules;

verus! {

/// What a character did to the stack of open regions. The flag is the
/// `tokenize` flag of the region that was opened or closed.
#[derive(PartialEq, Eq, Clone, Copy, Debug)]
pub enum RegionReaction {
    /// A region was opened.
    Begin(bool),
    /// The innermost region was closed.
    End(bool),
    /// Nothing changed.
    Pass,
}

/// An open region as a mathematical value: the region as declared, and the
/// list of regions that may open inside it.
pub struct FrameModel {
    pub region: Region,
    pub interp: Seq<Region>,
}

/// An open region: the region as declared, and the list of regions that
/// may open inside it, which is that of the region it references or its own.
#[derive(Clone, Copy)]
pub struct Frame<'a> {
    pub region: &'a Region,
    pub interp: &'a Vec<Region>,
}

impl<'a> View for Frame<'a> {
    type V = FrameModel;

    open spec fn view(&self) -> FrameModel {
        FrameModel { region: *self.region, interp: self.interp@ }
    }
}

/// The delimiter of `region` that is looked for on the side that `mode`
/// names: its `end` behind the cursor, its `begin` ahead of it.
pub open spec fn delimiter(region: Region, mode: ReadMode) -> Seq<char> {
    match mode {
        ReadMode::History => region.end@,
        ReadMode::Future => region.begin@,
    }
}

/// The delimiter of `region` stands at index `i` of `code` and is not
/// escaped.
pub open spec fn delimiter_matches(
    region: Region,
    code: Seq<char>,
    i: int,
    mode: ReadMode,
    escaped: bool,
) -> bool {
    !escaped && window_of(code, i, delimiter(region, mode).len() as int, mode) == Some(
        delimiter(region, mode),
    )
}

/// The position, at or after `from`, of the first of `candidates` whose
/// delimiter matches at index `i` of `code`.
pub open spec fn first_match(
    candidates: Seq<Region>,
    code: Seq<char>,
    i: int,
    mode: ReadMode,
    escaped: bool,
    from: int,
) -> Option<int>
    decreases candidates.len() - from,
{
    if from < 0 || from >= candidates.len() {
        None
    } else if delimiter_matches(candidates[from], code, i, mode, escaped) {
        Some(from)
    } else {
        first_match(candidates, code, i, mode, escaped, from + 1)
    }
}

/// The frame that is pushed when `region` opens.
pub open spec fn opened(region: Region, entries: Seq<Region>) -> FrameModel {
    FrameModel { region, interp: effective_interp(region, entries) }
}

/// The reaction to the character at index `i` of `code`, and the stack of
/// open regions after it. A region listed in the innermost frame opens if
/// its `begin` starts at `i`, the first such one in the list; else the
/// innermost region closes if it is not global and its `end` ends at `i`;
/// else nothing happens. An escaped character opens and closes nothing.
pub open spec fn react(
    stack: Seq<FrameModel>,
    entries: Seq<Region>,
    code: Seq<char>,
    i: int,
    escaped: bool,
) -> (RegionReaction, Seq<FrameModel>) {
    if stack.len() == 0 {
        (RegionReaction::Pass, stack)
    } else {
        let top = stack.last();
        match first_match(top.interp, code, i, ReadMode::Future, escaped, 0) {
            Some(k) => (
                RegionReaction::Begin(top.interp[k].tokenize),
                stack.push(opened(top.interp[k], entries)),
            ),
            None => if !top.region.global && delimiter_matches(
                top.region,
                code,
                i,
                ReadMode::History,
                escaped,
            ) {
                (RegionReaction::End(top.region.tokenize), stack.drop_last())
            } else {
                (RegionReaction::Pass, stack)
            },
        }
    }
}

/// The stack has the global region at its bottom, and whatever can open
/// from it has references that resolve.
pub open spec fn stack_wf(stack: Seq<FrameModel>, entries: Seq<Region>) -> bool {
    &&& stack.len() >= 1
    &&& stack[0].region.global
    &&& forall|f: int, j: int|
        0 <= f < stack.len() && 0 <= j < stack[f].interp.len() ==> entries.contains(
            #[trigger] stack[f].interp[j],
        )
    &&& tree_closed(entries)
}

/// Whatever is listed has its children listed, and references that resolve.
pub open spec fn tree_closed(entries: Seq<Region>) -> bool {
    &&& forall|k: int, j: int|
        0 <= k < entries.len() && 0 <= j < entries[k].interp@.len() ==> entries.contains(
            #[trigger] entries[k].interp@[j],
        )
    &&& forall|k: int| 0 <= k < entries.len() ==> reference_resolves(#[trigger] entries[k], entries)
}

/// A first match lies within the list, matches, and has no match before it.
pub proof fn lemma_first_match(
    candidates: Seq<Region>,
    code: Seq<char>,
    i: int,
    mode: ReadMode,
    escaped: bool,
    from: int,
)
    requires
        0 <= from,
    ensures
        match first_match(candidates, code, i, mode, escaped, from) {
            Some(k) => {
                &&& from <= k < candidates.len()
                &&& delimiter_matches(candidates[k], code, i, mode, escaped)
                &&& forall|j: int|
                    from <= j < k ==> !delimiter_matches(
                        #[trigger] candidates[j],
                        code,
                        i,
                        mode,
                        escaped,
                    )
            },
            None => forall|j: int|
                from <= j < candidates.len() ==> !delimiter_matches(
                    #[trigger] candidates[j],
                    code,
                    i,
                    mode,
                    escaped,
                ),
        },
    decreases candidates.len() - from,
{
    if from < candidates.len() && !delimiter_matches(candidates[from], code, i, mode, escaped) {
        lemma_first_match(candidates, code, i, mode, escaped, from + 1);
    }
}

/// A reaction keeps the stack well formed.
pub proof fn lemma_react_keeps_wf(
    stack: Seq<FrameModel>,
    entries: Seq<Region>,
    code: Seq<char>,
    i: int,
    escaped: bool,
)
    requires
        stack_wf(stack, entries),
    ensures
        stack_wf(react(stack, entries, code, i, escaped).1, entries),
{
    let top = stack.last();
    let after = react(stack, entries, code, i, escaped).1;
    lemma_first_match(top.interp, code, i, ReadMode::Future, escaped, 0);
    match first_match(top.interp, code, i, ReadMode::Future, escaped, 0) {
        Some(k) => {
            let region = top.interp[k];
            lemma_opened_listed(region, entries);
            assert forall|f: int, j: int|
                0 <= f < after.len() && 0 <= j < after[f].interp.len() implies entries.contains(
                #[trigger] after[f].interp[j],
            ) by {
                if f < stack.len() {
                    assert(after[f] == stack[f]);
                }
            }
        },
        None => {
            if after != stack {
                assert(stack.len() >= 2);
                assert forall|f: int, j: int|
                    0 <= f < after.len() && 0 <= j < after[f].interp.len() implies entries.contains(
                    #[trigger] after[f].interp[j],
                ) by {
                    assert(after[f] == stack[f]);
                }
            }
        },
    }
}

/// What can open inside a listed region once it is open is listed too.
pub proof fn lemma_opened_listed(region: Region, entries: Seq<Region>)
    requires
        tree_closed(entries),
        entries.contains(region),
    ensures
        forall|j: int|
            0 <= j < opened(region, entries).interp.len() ==> entries.contains(
                #[trigger] opened(region, entries).interp[j],
            ),
{
    let source = match region.references {
        Some(id) => match lookup(entries, id@) {
            Some(target) => {
                lemma_lookup_listed(entries, id@);
                target
            },
            None => region,
        },
        None => region,
    };
    assert(entries.contains(source));
    let k = choose|k: int| 0 <= k < entries.len() && entries[k] == source;
    assert forall|j: int| 0 <= j < source.interp@.len() implies entries.contains(
        #[trigger] source.interp@[j],
    ) by {
        assert(entries.contains(entries[k].interp@[j]));
    }
}

/// The regions listed for the tree of well-formed rules are closed under
/// taking children and resolving references.
pub proof fn lemma_rules_tree_closed(rules: Rules)
    requires
        rules.well_formed(),
    ensures
        tree_closed(preorder(rules.region_tree)),
        preorder(rules.region_tree).contains(rules.region_tree),
{
    let entries = preorder(rules.region_tree);
    assert(entries[0] == rules.region_tree);
    assert forall|k: int, j: int|
        0 <= k < entries.len() && 0 <= j < entries[k].interp@.len() implies entries.contains(
        #[trigger] entries[k].interp@[j],
    ) by {
        lemma_children_listed(rules.region_tree, entries[k], j);
    }
}

/// Follows which regions are open while the lexer walks through the text.
pub struct RegionHandler<'a> {
    region_stack: Vec<Frame<'a>>,
    region_map: RegionMap<'a>,
}

impl<'a> RegionHandler<'a> {
    /// The open regions, outermost first.
    pub closed spec fn stack(&self) -> Seq<FrameModel> {
        self.region_stack@.map_values(|f: Frame<'a>| f@)
    }

    /// The regions that a reference can name.
    pub closed spec fn entries(&self) -> Seq<Region> {
        self.region_map@
    }

    /// The stack is well formed with respect to the regions listed.
    pub open spec fn wf(&self) -> bool {
        stack_wf(self.stack(), self.entries())
    }

    /// A handler with only the global region of `rules` open.
    pub fn new(rules: &'a Rules) -> (handler: RegionHandler<'a>)
        requires
            rules.well_formed(),
        ensures
            handler.wf(),
            handler.entries() == preorder(rules.region_tree),
            handler.stack() == seq![
                FrameModel { region: rules.region_tree, interp: rules.region_tree.interp@ },
            ],
    {
        let mut region_stack: Vec<Frame<'a>> = Vec::new();
        region_stack.push(Frame { region: &rules.region_tree, interp: &rules.region_tree.interp });
        let handler = RegionHandler {
            region_stack,
            region_map: rules.region_tree.generate_region_map(),
        };
        proof {
            let stack = handler.stack();
            assert(stack =~= seq![
                FrameModel { region: rules.region_tree, interp: rules.region_tree.interp@ },
            ]);
            lemma_rules_tree_closed(*rules);
            assert forall|f: int, j: int|
                0 <= f < stack.len() && 0 <= j < stack[f].interp.len() implies handler.entries().contains(
                #[trigger] stack[f].interp[j],
            ) by {
                lemma_children_listed(rules.region_tree, rules.region_tree, j);
            }
        }
        handler
    }

    /// The innermost open region, as it was declared.
    pub fn get_region(&self) -> (region: Option<&'a Region>)
        ensures
            match region {
                Some(top) => self.stack().len() > 0 && *top == self.stack().last().region,
                None => self.stack().len() == 0,
            },
    {
        let n = self.region_stack.len();
        if n == 0 {
            None
        } else {
            Some(self.region_stack[n - 1].region)
        }
    }

    /// The regions that may open inside the innermost open region.
    pub fn get_interp(&self) -> (interp: Option<&'a Vec<Region>>)
        ensures
            match interp {
                Some(list) => self.stack().len() > 0 && list@ == self.stack().last().interp,
                None => self.stack().len() == 0,
            },
    {
        let n = self.region_stack.len();
        if n == 0 {
            None
        } else {
            Some(self.region_stack[n - 1].interp)
        }
    }

    /// After the end of the text: fails with the reader's position and the
    /// innermost open region if that region is not global and may not be
    /// left open.
    pub fn is_region_closed(&self, reader: &Reader) -> (closed: Result<
        (),
        ((usize, usize), &'a Region),
    >)
        ensures
            match closed {
                Ok(_) => self.stack().len() > 0 ==> self.stack().last().region.global
                    || self.stack().last().region.allow_unclosed,
                Err((pos, region)) => {
                    &&& self.stack().len() > 0
                    &&& *region == self.stack().last().region
                    &&& !region.global
                    &&& !region.allow_unclosed
                    &&& pos == (reader.row, reader.col)
                },
            },
    {
        match self.get_region() {
            Some(region) => {
                if !region.global && !region.allow_unclosed {
                    return Err((reader.get_position(), region));
                }
            },
            None => {},
        }
        Ok(())
    }

    /// Reacts to the character that the reader stands on: opens a region,
    /// closes the innermost one, or passes.
    pub fn handle_region(&mut self, reader: &Reader, is_escaped: bool) -> (reaction:
        RegionReaction)
        requires
            old(self).wf(),
        ensures
            final(self).wf(),
            final(self).entries() == old(self).entries(),
            (reaction, final(self).stack()) == react(
                old(self).stack(),
                old(self).entries(),
                reader.code@,
                reader.index as int,
                is_escaped,
            ),
            is_escaped ==> reaction == RegionReaction::Pass && final(self).stack() == old(
                self,
            ).stack(),
    {
        proof {
            lemma_react_keeps_wf(
                self.stack(),
                self.entries(),
                reader.code@,
                reader.index as int,
                is_escaped,
            );
            lemma_first_match(
                self.stack().last().interp,
                reader.code@,
                reader.index as int,
                ReadMode::Future,
                is_escaped,
                0,
            );
        }
        match self.match_region_by_begin(reader, is_escaped) {
            Some(begin_region) => {
                let tokenize = begin_region.tokenize;
                self.open_region(begin_region);
                return RegionReaction::Begin(tokenize);
            },
            None => {},
        }
        match self.match_region_by_end(reader, is_escaped) {
            Some(end_region) => {
                let tokenize = end_region.tokenize;
                let ghost before = self.stack();
                self.region_stack.pop();
                proof {
                    assert(self.stack() =~= before.drop_last());
                }
                return RegionReaction::End(tokenize);
            },
            None => {},
        }
        RegionReaction::Pass
    }

    /// Pushes `region` as the innermost open region. What may open inside
    /// it is the `interp` list of the region it references, or its own. A
    /// reference that names no region is an error in the rules.
    pub fn open_region(&mut self, region: &'a Region)
        requires
            reference_resolves(*region, old(self).entries()),
        ensures
            final(self).entries() == old(self).entries(),
            final(self).stack() == old(self).stack().push(opened(*region, old(self).entries())),
    {
        let ghost before = self.stack();
        let interp: &'a Vec<Region> = match &region.references {
            Some(id) => match self.region_map.get(id) {
                Some(target) => &target.interp,
                None => vstd::pervasive::unreached(),
            },
            None => &region.interp,
        };
        self.region_stack.push(Frame { region, interp });
        proof {
            assert(self.stack() =~= before.push(opened(*region, self.entries())));
        }
    }

    /// The first of `candidates` whose delimiter on the side of `read_mode`
    /// matches at the reader's position.
    pub fn match_region_by(
        &self,
        reader: &Reader,
        candidates: &'a Vec<Region>,
        read_mode: ReadMode,
        is_escaped: bool,
    ) -> (found: Option<&'a Region>)
        ensures
            match first_match(
                candidates@,
                reader.code@,
                reader.index as int,
                read_mode,
                is_escaped,
                0,
            ) {
                Some(k) => found == Some(&candidates@[k]),
                None => found is None,
            },
    {
        let mut k: usize = 0;
        while k < candidates.len()
            invariant
                k <= candidates@.len(),
                first_match(candidates@, reader.code@, reader.index as int, read_mode, is_escaped, 0)
                    == first_match(
                    candidates@,
                    reader.code@,
                    reader.index as int,
                    read_mode,
                    is_escaped,
                    k as int,
                ),
            decreases candidates@.len() - k,
        {
            let candidate: &'a Region = &candidates[k];
            if Self::delimiter_found(reader, candidate, &read_mode, is_escaped) {
                return Some(candidate);
            }
            k += 1;
        }
        None
    }

    /// Whether the delimiter of `region` on the side of `read_mode` stands
    /// at the reader's position, unescaped.
    pub fn delimiter_found(
        reader: &Reader,
        region: &Region,
        read_mode: &ReadMode,
        is_escaped: bool,
    ) -> (found: bool)
        ensures
            found == delimiter_matches(
                *region,
                reader.code@,
                reader.index as int,
                *read_mode,
                is_escaped,
            ),
    {
        let text: &String = match read_mode {
            ReadMode::History => &region.end,
            ReadMode::Future => &region.begin,
        };
        match reader.get_history_or_future(text.as_str().unicode_len(), read_mode) {
            Some(code_chunk) => !is_escaped && code_chunk == *text,
            None => false,
        }
    }

    /// The region listed in the innermost open region whose `begin` starts
    /// at the reader's position, the first such one.
    pub fn match_region_by_begin(&self, reader: &Reader, is_escaped: bool) -> (found: Option<
        &'a Region,
    >)
        requires
            self.stack().len() > 0,
        ensures
            match first_match(
                self.stack().last().interp,
                reader.code@,
                reader.index as int,
                ReadMode::Future,
                is_escaped,
                0,
            ) {
                Some(k) => found == Some(&self.stack().last().interp[k]),
                None => found is None,
            },
    {
        let interp = self.region_stack[self.region_stack.len() - 1].interp;
        self.match_region_by(reader, interp, ReadMode::Future, is_escaped)
    }

    /// The innermost open region, if it is not global and its `end` ends at
    /// the reader's position.
    pub fn match_region_by_end(&self, reader: &Reader, is_escaped: bool) -> (found: Option<
        &'a Region,
    >)
        requires
            self.stack().len() > 0,
        ensures
            found == if !self.stack().last().region.global && delimiter_matches(
                self.stack().last().region,
                reader.code@,
                reader.index as int,
                ReadMode::History,
                is_escaped,
            ) {
                Some(&self.stack().last().region)
            } else {
                None
            },
    {
        let region = self.region_stack[self.region_stack.len() - 1].region;
        if !region.global && Self::delimiter_found(reader, region, &ReadMode::History, is_escaped) {
            Some(region)
        } else {
            None
        }
    }
}

} // verus!
