# novel_work

The verified core of a novel-writing assistant. A novel is a structure tree
of cards (the root, volumes, chapters, characters, plot cards, knowledge
cards) joined by links; the assistant plans chapters with a language model,
writes and refines them, keeps a memory of each chapter, and talks with the
author in a chat that can read and edit the tree.

## Layout

- `src/` — the library, verified with Verus. Every public function states
  what it returns or how it changes its `&mut` arguments.
  - Tree and cards: `models`, `tree_refs` (lookups, chapter order, chapter
    numbers), `tree_edit` (deleting cards, links, root repair), `cast`,
    `card_meta`, `public_cards`, `initial_tree` (a new novel's tree),
    `chapter_cards` (plot cards a model proposes for a chapter), `consolidation` and `plot_consolidate` (merging the
    chapters' plot cards into root plot lines).
  - Reading model replies: `json`, `llm_json`, `outline_json`,
    `outline_parse`, `plan_json`, `chat_json`, `chapter_plan`,
    `novel_create`, `chapter_shots`.
  - Prompt material: `card_text`, `character_fmt`, `core_laws_fmt`,
    `existence_fmt`, `info_flow_fmt`, `history_culture_fmt`,
    `root_reference`, `bound_cards` (the cards a chapter outline must obey),
    `kb_context` (knowledge retrieval and capped card
    blocks), `chapter_memory` (memory splitting, keyword ranking,
    retrieval), `chapter_constraints` and `land_beats` (what a chapter must
    land before it is accepted), `chapter_context` (the chapter text and
    linked cards a chapter is written against), `rewrite_reference` (the
    reference book and prompts of an AI field or card rewrite), `lore` (the
    canon a finished chapter is checked against), `chapter_flow`.
  - Chat: `global_chat` (message store, slots, tool allow-lists, progress),
    `chat_tools` (the tool loop's decisions and the tree tools),
    `chat_history` (tool calls still waiting for a result, and closing
    them), `compat_messages`.
  - Other: `commands` (word and chapter targets, labels, settings helpers),
    `chunk` (speech chunks of about 1000 characters overlapping by 20),
    `chapter_tts`, `ai_log` (log switch and redaction of secrets),
    `settings_migrate` (moving older single API keys into the provider
    list), `catalog`,
    `ids`, `text`.
- `app/` — ordinary Rust around the library: the interaction log's files,
  storyboard files, the chat store behind a lock, speech playback state, and
  serde copies of library types.
- `tests/` — tests run against the compiled library.

## What stays outside the library

The model calls, the database, the vector index, file and network access
and the desktop shell are outside; the library takes what they read as
plain values and returns what they should write. Where a step needs one of
the app's rule sets that this crate does not hold (the tree-link rules that
say which plot cards a chapter inherits from its root and volume, the prompt
texts and their labels, the settings store and its provider catalogue, the
card layout pass, the story-rules and world formatters for space-time and
social-power cards), the verified function takes that set's result as an
argument: `collect_land_beats` takes the chapter's plot cards with their
texts, `chapter_bound_cards_for_outline` and `chapter_context` its own and
inherited plot cards, `root_generate_reference` takes the locale's labels,
`root_brief_for_outline` and `assemble_novel_rewrite_reference` take the
formatted feature block, and `lore_canon_text` takes each card's budget.

Canvas positions are whole canvas units (`i64`); new cards are placed by
the same offsets the app uses, and the app's automatic layout runs after.
