# modular_agent_web

Web agents for Modular Agent: HTTP fetching, HTML scraping by CSS selector,
HTML to Markdown conversion, SearXNG web search and YouTube transcript
extraction.

The logic of the agents is a Verus-verified library under `src/`:

- `yt_transcript`: caption track selection, video IDs of watch URLs, the
  `languages` setting, and the decisions around the player and timedtext
  requests.
- `timedtext`: the timedtext caption formats (srv3 and legacy), read with
  quick-xml and assembled into snippets by a specified state machine.
- `entity`: entity references in caption text.
- `searxng`: the search a query input describes, the request parameters,
  the base URL setting and the truncation of the results.
- `html_scraper`, `html_to_markdown`: the scraper and html-to-markdown-rs
  calls and what the agents make of their inputs.
- `input`, `error`: the agents' input values and errors.
- `text`, `number`, `xml`: helpers (trimming, case-insensitive comparison,
  integer parsing and formatting, the float literal grammar, the XML reader).

`app/` holds what Verus does not check: the agents' registration with
modular-agent-core and agent-stream-kit, the HTTP requests, JSON
(de)serialisation, and the conversion of times to seconds.
