# intercom_sync

The verified core of an agent that keeps Asterisk's `pjsip.conf` in step with
the intercoms that a head end lists. The library (`src/`) is checked by Verus;
`app/main.rs` is the agent itself: it reads the environment, talks AMQP and
GraphQL, touches files and runs `docker`, and asks the library for every
decision.

- `text`: whitespace, ASCII case, decimal numbers and the order of strings.
- `mac`: normalisation of MAC addresses (trim, lower case, no `:`, twelve hex digits).
- `order`: stable sorting by a string key; the sort is unique.
- `intercom`: the normalised, MAC-sorted intercom list; it does not depend on the listing order.
- `render`: the generated `pjsip.conf`.
- `backup`: backup names and the retention policy (the last backups in name order stay;
  for the agent's own backups that is the newest).
- `event`: which queue events call for a sync.
- `config`: the settings (all required), endpoints, exchange kind.
- `sync`: change detection (ignoring the generation stamp) and the phases of a sync run
  (apply, reload, module reload, roll back).
- `agent`: the main loop's debounce and scheduling decisions.
