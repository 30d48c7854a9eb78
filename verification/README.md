# dodeca (verified core)

The logic of the dodeca static site generator's authoring tools and server
helpers, written in Verus with its contracts proved: routes and links,
cache-busted asset names, the site graph and its diagnostics, frontmatter
parsing and completion, template diagnostics (missing templates, blocks,
filters, tests and macros, located in the template's text) and template
navigation (where a block, a macro, a built-in filter or test is defined;
the macro calls of a template) with the template index that the editor
queries (the blocks, macros and macro calls of each template, who extends
whom, block and macro references), the assembly of the authoring model
from the parts of a site, the language server's decisions about its cached
authoring world, hovers, renames and quick fixes, build-step
planning, and the pieces of the content service and cell host that decide
rather than do I/O.

Layout:

- `src/` — the verified library. Each module states what its functions
  return over spec functions and views; laws that relate several functions
  are public proof functions (`law_*`). Calls into outside crates
  (`camino`, `pulldown-cmark`, `rapidhash`, `marq`, and `gingembre`'s
  template parser and tables of built-in filters and tests) and a few parts of std
  sit behind small trusted wrappers whose contracts name their results.
- `tests/` — tests on concrete values, run with the real outside crates.
- `app/` — the program around the library: argument handling, sockets,
  processes, file reads and the asynchronous plumbing.

Not here: what the editor reads from gingembre's semantic index of a
template (document symbols, hovers and completions of template variables),
and the server loops of the language server, the content service and the
cell host.
