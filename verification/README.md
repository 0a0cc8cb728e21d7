# upenn_curf_scraper

Downloads the research directory of the Center for Undergraduate Research and
Funding (CURF) at the University of Pennsylvania so that it can be searched
offline, and walks the user through the opportunities that match a fixed
filter.

The crate is split in two:

- `src/` is the library, verified with Verus. It holds the records that the
  program stores (`Auth`, `Links`, `Opportunities`, `ProcessedOpportunities`
  and their parts), a map from ids to records with distinct keys
  (`str_map`), the text handling the pages need (`text`), the HTML document
  tree that html5ever builds (`html`), the reading of listing pages and of
  opportunity pages (`scrape_links`, `scrape_opportunities`), the join of the
  two (`process_opportunities`), the typed-in session cookies
  (`update_auth`) and the selection and review of opportunities (`filter`).
  Each public function states in its contract what it returns.
- `app/` is the command-line program: it reads and writes the `.ron` files,
  fetches pages over HTTP, talks to the terminal and opens links in the
  browser, and hands everything else to the library.

Commands: `update-auth`, `scrape-links`, `scrape-opportunities`,
`process-opportunities`, `filter`; `--path` names the directory of the files.

The records keyed by opportunity id are held in `StrMap`, a list of entries
in which no key occurs twice, in place of the `HashMap<String, _>` of the
stored files: Verus's specifications of `HashMap` and `BTreeMap` cover key
types with a known hashing or ordering model (the integer types and the like),
which `String` is not, so nothing could be proved of those maps through them. The app converts between the two when it reads and writes the
files; the order of the entries, left open by a `HashMap`, is the order in
which ids were first put in.
