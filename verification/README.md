# lorn

`lorn` audits a Kubernetes cluster. It reports

- persistent volume claims that no workload uses,
- containers that run images of the Bitnami catalogue,
- storage drivers that serve volumes but have no snapshot class,
- services that send to a port below 1024 in a pod which may not bind it, unless
  a probe shows that nothing listens there.

It prints one line per finding and exits with status 1 if there is any, if the
namespaces cannot be listed, or if the run fails.

## Layout

- `src/` holds the rules, written and verified in Verus. They work on plain
  values: `objects` has the Kubernetes objects with the fields that the rules
  read, `claims`, `images`, `snapshots`, `privileges` and `probes` are the
  checks, `outcome` puts together what requests that may fail came to, `retry`
  decides on retries, and `report` on what is printed. The functions named
  `law_...` state what holds of the checks as a whole.
- `app/` is the program: it fetches the objects, forwards the ports that the
  rules ask to probe, and prints the report.
- `tests/` runs the rules on examples.

The one thing taken on trust is `str::to_lowercase`, in `text`.
