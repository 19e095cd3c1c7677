# core_selynt

The verified core of a setuid program that manages web apps on a DirectAdmin
server. `src/` holds what the program decides, as functions on plain values
whose contracts Verus proves. `app/` is the program around them: it reads
files, processes and accounts, carries out the steps it is given, and prints the
answer as JSON.

| Module      | What it decides                                                       |
|-------------|-----------------------------------------------------------------------|
| `sys`       | answers, callers and privilege, state directories, processes, JSON     |
| `app`       | apps: registering, starting, stopping, jobs, logs, and boot            |
| `runtime`   | runtimes: which are installed, which are safe to run                   |
| `limits`    | what an account and an app may use, confinement, the network guard     |
| `webserver` | what the web server is told, and when it is told again                 |
| `admin`     | the administrator's commands                                           |
| `install`   | setting the program up, taking it down, and diagnosing it              |
| `cli`, `plan` | what a command line asks for, and what root does before it lets go   |
| `da`        | the panel's local socket                                               |
| `effect`, `command` | steps and command lines, as values                             |
| `text`, `path`, `order`, `count` | strings, paths, sorting, counting                 |

Properties that span several functions are public proof functions whose names
start with `law_`. What the proofs take on trust from `serde_json` and the
standard library stands in `text`, `sys::json` and `app::logs`.
