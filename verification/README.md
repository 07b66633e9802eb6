# netcom_toolkit

A toolkit for first-level network support at an ISP, and the ping test
runner that it starts. The toolkit logs in to MikroTik routers over SSH and

* runs live ping tests in Windows Terminal panes, one runner per test;
* writes a latency report from a template, after running each test a
  hundred times in the background;
* finds free management addresses and free `/29` segments of an RF node;
* lists the dynamic DHCP leases of the FTTH nodes.

## Layout

* `src/` is the verified library (Verus). Each module states what it computes
  in `requires`/`ensures` contracts over sequence models:
  * `text` - the string operations the tool relies on (search, replace, trim,
    split into words and lines, decimal parsing);
  * `ping` - reading the router's `ping` output; the live display's decisions;
  * `trace` - reading traceroute hops;
  * `cli` - the runner's command line;
  * `launcher` - the test list and the batch file that starts the tests;
  * `ip` - address order, addresses and segments in use, free ones;
  * `report` - filling, sorting and cleaning the latency report;
  * `credentials` - the saved, Base64-encoded credentials;
  * `json` - the configuration documents;
  * `backup` - factory copies of the data files;
  * `menu` - the decisions of the interactive menus;
  * `clock` - dates and times on reports and file names.
* `app/` is the program: terminal, files, SSH sessions, threads with
  timeouts, the database upload, and the floating-point latency statistics.
  Started as `api` (as the batch files start it) it is the test runner;
  under any other name it is the interactive toolkit.
* `tests/` runs the library on concrete inputs.
